//! The outcome of one scan and the verdict derived from it.

use vstd::prelude::*;
use vstd::string::*;
use crate::kex_init::{KexInitContent, SshMsgKexInit};
use crate::text::{any_has_suffix, contains_name, some_ends_with};

verus! {

/// The cipher whose packet layout the attack exploits.
pub const CHACHA20_POLY1305: &'static str = "chacha20-poly1305@openssh.com";

/// The ending shared by the names of all encrypt-then-MAC algorithms.
pub const ETM_SUFFIX: &'static str = "-etm@openssh.com";

/// The ending shared by the names of all ciphers in CBC mode.
pub const CBC_SUFFIX: &'static str = "-cbc";

/// The name by which a client announces strict key exchange.
pub const KEX_STRICT_INDICATOR_CLIENT: &'static str = "kex-strict-c-v00@openssh.com";

/// The name by which a server announces strict key exchange.
pub const KEX_STRICT_INDICATOR_SERVER: &'static str = "kex-strict-s-v00@openssh.com";

/// Which side of the connection is being examined.
#[derive(Clone, Copy, Debug, PartialEq, Eq, Structural)]
pub enum ScanMode {
    /// The scanner connects out and examines a server.
    ServerScan,
    /// The scanner listens, accepts one connection and examines the client.
    ClientScan,
}

/// What one scan found out about the peer.
///
/// The verdict is not stored: [`Report::is_vulnerable`] derives it from the
/// three findings each time it is asked.
#[derive(Clone, Debug, PartialEq, Eq)]
pub struct Report {
    pub remote_addr: String,
    /// True when the scanner was the listening side of the connection.
    pub is_server: bool,
    pub banner: String,
    pub supports_chacha20: bool,
    pub supports_cbc_etm: bool,
    pub supports_strict_kex: bool,
}

/// A [`Report`] with its texts as character sequences.
pub struct ReportContent {
    pub remote_addr: Seq<char>,
    pub is_server: bool,
    pub banner: Seq<char>,
    pub supports_chacha20: bool,
    pub supports_cbc_etm: bool,
    pub supports_strict_kex: bool,
}

impl View for Report {
    type V = ReportContent;

    open spec fn view(&self) -> ReportContent {
        ReportContent {
            remote_addr: self.remote_addr@,
            is_server: self.is_server,
            banner: self.banner@,
            supports_chacha20: self.supports_chacha20,
            supports_cbc_etm: self.supports_cbc_etm,
            supports_strict_kex: self.supports_strict_kex,
        }
    }
}

/// The ChaCha20-Poly1305 cipher is offered in at least one direction.
pub open spec fn offers_chacha20(kex_init: KexInitContent) -> bool {
    kex_init.encryption_algorithms_client_to_server().contains(CHACHA20_POLY1305@)
        || kex_init.encryption_algorithms_server_to_client().contains(CHACHA20_POLY1305@)
}

/// In at least one direction a CBC cipher is offered together with an
/// encrypt-then-MAC algorithm. The two directions are judged apart.
pub open spec fn offers_cbc_etm(kex_init: KexInitContent) -> bool {
    (some_ends_with(kex_init.encryption_algorithms_client_to_server(), CBC_SUFFIX@)
        && some_ends_with(kex_init.mac_algorithms_client_to_server(), ETM_SUFFIX@))
        || (some_ends_with(kex_init.encryption_algorithms_server_to_client(), CBC_SUFFIX@)
        && some_ends_with(kex_init.mac_algorithms_server_to_client(), ETM_SUFFIX@))
}

/// The peer announces strict key exchange. A server does so by the server's
/// indicator; where the peer is a client, the client's indicator counts too.
pub open spec fn offers_strict_kex(kex_init: KexInitContent, scan_mode: ScanMode) -> bool {
    kex_init.kex_algorithms().contains(KEX_STRICT_INDICATOR_SERVER@)
        || (scan_mode == ScanMode::ClientScan && kex_init.kex_algorithms().contains(
        KEX_STRICT_INDICATOR_CLIENT@,
    ))
}

/// The report that follows from a peer's address, banner and `SSH_MSG_KEXINIT`.
pub open spec fn assessment(
    address: Seq<char>,
    scan_mode: ScanMode,
    banner: Seq<char>,
    kex_init: KexInitContent,
) -> ReportContent {
    ReportContent {
        remote_addr: address,
        is_server: scan_mode == ScanMode::ClientScan,
        banner,
        supports_chacha20: offers_chacha20(kex_init),
        supports_cbc_etm: offers_cbc_etm(kex_init),
        supports_strict_kex: offers_strict_kex(kex_init, scan_mode),
    }
}

impl ReportContent {
    /// The verdict as a function of the three findings.
    pub open spec fn vulnerable(self) -> bool {
        (self.supports_chacha20 || self.supports_cbc_etm) && !self.supports_strict_kex
    }
}

impl Report {
    /// True when the peer offers an affected cipher mode and does not offer
    /// strict key exchange.
    pub fn is_vulnerable(&self) -> (verdict: bool)
        ensures
            verdict == self@.vulnerable(),
    {
        (self.supports_chacha20 || self.supports_cbc_etm) && !self.supports_strict_kex
    }

    /// Derives the findings from the algorithm lists that the peer sent.
    pub fn evaluate(
        address: &str,
        scan_mode: ScanMode,
        banner: String,
        kex_init: &SshMsgKexInit,
    ) -> (report: Report)
        ensures
            report@ == assessment(address@, scan_mode, banner@, kex_init@),
    {
        let supports_chacha20 = contains_name(
            &kex_init.encryption_algorithms_client_to_server,
            CHACHA20_POLY1305,
        ) || contains_name(&kex_init.encryption_algorithms_server_to_client, CHACHA20_POLY1305);
        let supports_cbc_etm = (any_has_suffix(
            &kex_init.encryption_algorithms_client_to_server,
            CBC_SUFFIX,
        ) && any_has_suffix(&kex_init.mac_algorithms_client_to_server, ETM_SUFFIX))
            || (any_has_suffix(&kex_init.encryption_algorithms_server_to_client, CBC_SUFFIX)
            && any_has_suffix(&kex_init.mac_algorithms_server_to_client, ETM_SUFFIX));
        let client_scan = match scan_mode {
            ScanMode::ClientScan => true,
            ScanMode::ServerScan => false,
        };
        let supports_strict_kex = contains_name(
            &kex_init.kex_algorithms,
            KEX_STRICT_INDICATOR_SERVER,
        ) || (client_scan && contains_name(&kex_init.kex_algorithms, KEX_STRICT_INDICATOR_CLIENT));
        Report {
            remote_addr: String::from_str(address),
            is_server: client_scan,
            banner,
            supports_chacha20,
            supports_cbc_etm,
            supports_strict_kex,
        }
    }
}

} // verus!
