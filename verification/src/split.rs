//! Splitting a sequence at every occurrence of a separator, and what
//! splitting UTF-8 bytes at a comma has to do with splitting the text.

use vstd::prelude::*;
use vstd::utf8::*;

verus! {

/// The comma as a byte.
pub const COMMA: u8 = 0x2c;

/// The position of the first `sep` in `s`, or the length of `s` where it
/// holds none.
pub open spec fn index_of_first<T>(s: Seq<T>, sep: T) -> int
    decreases s.len(),
{
    if s.len() == 0 || s[0] == sep {
        0
    } else {
        1 + index_of_first(s.drop_first(), sep)
    }
}

/// The pieces of `s` between the occurrences of `sep`, in order. A sequence
/// with n separators has n + 1 pieces, some of them possibly empty; the empty
/// sequence has the one empty piece.
pub open spec fn split_on<T>(s: Seq<T>, sep: T) -> Seq<Seq<T>>
    decreases s.len(),
{
    let i = index_of_first(s, sep);
    if 0 <= i < s.len() {
        seq![s.take(i)] + split_on(s.skip(i + 1), sep)
    } else {
        seq![s]
    }
}

/// [`index_of_first`] is the one position before which there is no
/// separator and at which there is one, or the sequence ends.
pub proof fn lemma_index_of_first<T>(s: Seq<T>, sep: T, i: int)
    requires
        0 <= i <= s.len(),
        forall|j: int| 0 <= j < i ==> s[j] != sep,
        i < s.len() ==> s[i] == sep,
    ensures
        index_of_first(s, sep) == i,
    decreases s.len(),
{
    if s.len() == 0 || s[0] == sep {
    } else {
        let rest = s.drop_first();
        assert forall|j: int| 0 <= j < i - 1 implies rest[j] != sep by {
            assert(rest[j] == s[j + 1]);
        }
        lemma_index_of_first(rest, sep, i - 1);
    }
}

/// Where [`index_of_first`] points, and that nothing before it is a separator.
pub proof fn lemma_index_of_first_bounds<T>(s: Seq<T>, sep: T)
    ensures
        0 <= index_of_first(s, sep) <= s.len(),
        forall|j: int| 0 <= j < index_of_first(s, sep) ==> s[j] != sep,
        index_of_first(s, sep) < s.len() ==> s[index_of_first(s, sep)] == sep,
    decreases s.len(),
{
    if s.len() == 0 || s[0] == sep {
    } else {
        let rest = s.drop_first();
        lemma_index_of_first_bounds(rest, sep);
        assert forall|j: int| 0 <= j < index_of_first(s, sep) implies s[j] != sep by {
            if j > 0 {
                assert(rest[j - 1] == s[j]);
            }
        }
    }
}

/// A sequence is never split into nothing.
pub proof fn lemma_split_on_nonempty<T>(s: Seq<T>, sep: T)
    ensures
        split_on(s, sep).len() >= 1,
{
}

/// The pieces put together again, with one `sep` between neighbours.
pub open spec fn joined<T>(pieces: Seq<Seq<T>>, sep: T) -> Seq<T>
    decreases pieces.len(),
{
    if pieces.len() == 0 {
        Seq::empty()
    } else if pieces.len() == 1 {
        pieces[0]
    } else {
        pieces[0] + seq![sep] + joined(pieces.drop_first(), sep)
    }
}

/// Splitting undoes joining: pieces that hold no separator themselves come
/// out of the joined sequence as they went in.
pub proof fn lemma_split_joined<T>(pieces: Seq<Seq<T>>, sep: T)
    requires
        pieces.len() >= 1,
        forall|k: int, j: int|
            0 <= k < pieces.len() && 0 <= j < pieces[k].len() ==> pieces[k][j] != sep,
    ensures
        split_on(joined(pieces, sep), sep) == pieces,
    decreases pieces.len(),
{
    let whole = joined(pieces, sep);
    let first = pieces[0];
    if pieces.len() == 1 {
        lemma_index_of_first(whole, sep, whole.len() as int);
        assert(split_on(whole, sep) =~= pieces);
    } else {
        let others = pieces.drop_first();
        assert forall|k: int, j: int|
            0 <= k < others.len() && 0 <= j < others[k].len() implies others[k][j] != sep by {
            assert(others[k] == pieces[k + 1]);
        }
        lemma_split_joined(others, sep);
        assert forall|j: int| 0 <= j < first.len() implies whole[j] != sep by {
            assert(whole[j] == first[j]);
        }
        assert(whole[first.len() as int] == sep);
        lemma_index_of_first(whole, sep, first.len() as int);
        assert(whole.take(first.len() as int) =~= first);
        assert(whole.skip(first.len() as int + 1) =~= joined(others, sep));
        assert(split_on(whole, sep) =~= pieces);
    }
}

/// Text whose UTF-8 bytes hold no comma byte holds no comma.
pub proof fn lemma_no_comma_byte_no_comma(bytes: Seq<u8>)
    requires
        valid_utf8(bytes),
        forall|j: int| 0 <= j < bytes.len() ==> bytes[j] != COMMA,
    ensures
        forall|j: int| 0 <= j < decode_utf8(bytes).len() ==> decode_utf8(bytes)[j] != ',',
    decreases bytes.len(),
{
    if bytes.len() > 0 {
        let first = decode_first_scalar(bytes) as char;
        let rest = pop_first_scalar(bytes);
        assert forall|j: int| 0 <= j < rest.len() implies rest[j] != COMMA by {
            assert(rest[j] == bytes[j + length_of_first_scalar(bytes)]);
        }
        lemma_no_comma_byte_no_comma(rest);
        if first == ',' {
            decode_utf8_first_scalar(bytes);
            assert(',' as u32 == 0x2c);
            assert(0x2cu32 & 0x7f == 0x2c) by (bit_vector);
            assert(encode_scalar(0x2c) =~= seq![COMMA]);
            assert(take_first_scalar(bytes)[0] == bytes[0]);
            assert(false);
        }
        assert forall|j: int| 0 <= j < decode_utf8(bytes).len() implies decode_utf8(bytes)[j]
            != ',' by {
            if j > 0 {
                assert(decode_utf8(bytes)[j] == decode_utf8(rest)[j - 1]);
            }
        }
    }
}

/// A comma byte in valid UTF-8 is a character of its own: the bytes before
/// it and the bytes after it are valid UTF-8, and the text is the text
/// before it, a comma, and the text after it.
pub proof fn lemma_comma_byte_parts(bytes: Seq<u8>, i: int)
    requires
        valid_utf8(bytes),
        0 <= i < bytes.len(),
        bytes[i] == COMMA,
    ensures
        valid_utf8(bytes.take(i)),
        valid_utf8(bytes.skip(i + 1)),
        decode_utf8(bytes) == decode_utf8(bytes.take(i)) + seq![','] + decode_utf8(
            bytes.skip(i + 1),
        ),
{
    is_char_boundary_iff_not_is_continuation_byte(bytes, i);
    valid_utf8_split(bytes, i);
    decode_utf8_split(bytes, i);
    let tail = bytes.skip(i);
    assert(tail[0] == COMMA);
    assert(pop_first_scalar(tail) =~= bytes.skip(i + 1));
    assert(0x2cu8 & 0x7f == 0x2c) by (bit_vector);
    assert(decode_first_scalar(tail) == 0x2c);
    assert(',' as u32 == 0x2c);
    char_u32_cast(',', 0x2cu32);
    assert(decode_utf8(tail) =~= seq![','] + decode_utf8(bytes.skip(i + 1)));
}

/// The single comma byte is valid UTF-8.
proof fn lemma_comma_is_valid()
    ensures
        valid_utf8(seq![COMMA]),
{
    let s = seq![COMMA];
    assert(0x2cu8 & 0x7f == 0x2c) by (bit_vector);
    assert(valid_first_scalar(s));
    assert(pop_first_scalar(s) =~= Seq::<u8>::empty());
    assert(valid_utf8(pop_first_scalar(s)));
}

/// Splitting UTF-8 bytes at the comma byte is splitting the text at the
/// comma: the bytes are valid exactly when every piece is, and then the
/// pieces of the text are the pieces of the bytes, decoded one by one.
pub proof fn lemma_split_utf8(bytes: Seq<u8>)
    ensures
        valid_utf8(bytes) <==> (forall|k: int|
            0 <= k < split_on(bytes, COMMA).len() ==> valid_utf8(
                #[trigger] split_on(bytes, COMMA)[k],
            )),
        valid_utf8(bytes) ==> split_on(decode_utf8(bytes), ',') == split_on(
            bytes,
            COMMA,
        ).map_values(|piece: Seq<u8>| decode_utf8(piece)),
    decreases bytes.len(),
{
    let pieces = split_on(bytes, COMMA);
    let decode = |piece: Seq<u8>| decode_utf8(piece);
    let i = index_of_first(bytes, COMMA);
    lemma_index_of_first_bounds(bytes, COMMA);
    if 0 <= i < bytes.len() {
        let head = bytes.take(i);
        let tail = bytes.skip(i + 1);
        let tail_pieces = split_on(tail, COMMA);
        lemma_split_utf8(tail);
        assert(pieces[0] == head);
        assert forall|k: int| 0 <= k < tail_pieces.len() implies tail_pieces[k] == pieces[k + 1] by {}
        if valid_utf8(bytes) {
            lemma_comma_byte_parts(bytes, i);
            assert forall|k: int| 0 <= k < pieces.len() implies valid_utf8(
                #[trigger] pieces[k],
            ) by {
                if k > 0 {
                    assert(pieces[k] == tail_pieces[k - 1]);
                }
            }
            assert forall|j: int| 0 <= j < head.len() implies head[j] != COMMA by {
                assert(head[j] == bytes[j]);
            }
            lemma_no_comma_byte_no_comma(head);
            let text = decode_utf8(bytes);
            let before = decode_utf8(head);
            let after = decode_utf8(tail);
            assert(text == before + seq![','] + after);
            assert forall|j: int| 0 <= j < before.len() implies text[j] != ',' by {
                assert(text[j] == before[j]);
            }
            assert(text[before.len() as int] == ',');
            lemma_index_of_first(text, ',', before.len() as int);
            assert(text.take(before.len() as int) =~= before);
            assert(text.skip(before.len() as int + 1) =~= after);
            assert(split_on(text, ',') =~= seq![before] + split_on(after, ','));
            assert(split_on(text, ',') =~= pieces.map_values(decode));
        }
        if forall|k: int| 0 <= k < pieces.len() ==> valid_utf8(#[trigger] pieces[k]) {
            assert(valid_utf8(pieces[0]));
            assert forall|k: int| 0 <= k < tail_pieces.len() implies valid_utf8(
                #[trigger] tail_pieces[k],
            ) by {
                assert(valid_utf8(pieces[k + 1]));
            }
            lemma_comma_is_valid();
            valid_utf8_concat(head, seq![COMMA]);
            valid_utf8_concat(head + seq![COMMA], tail);
            assert(bytes =~= head + seq![COMMA] + tail);
        }
    } else {
        assert(pieces =~= seq![bytes]);
        assert(pieces[0] == bytes);
        if valid_utf8(bytes) {
            lemma_no_comma_byte_no_comma(bytes);
            let text = decode_utf8(bytes);
            lemma_index_of_first(text, ',', text.len() as int);
            assert(split_on(text, ',') =~= seq![text]);
            assert(split_on(text, ',') =~= pieces.map_values(decode));
        }
    }
}

} // verus!
