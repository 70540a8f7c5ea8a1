//! The source and output files: their names, and the bytes written for the
//! encoded instructions.
use vstd::prelude::*;
use crate::errors::FileHandlerError;
use crate::text::chars_of;

verus! {

/// Whether `s` ends with `suffix`.
pub open spec fn ends_with(s: Seq<char>, suffix: Seq<char>) -> bool {
    s.len() >= suffix.len() && s.subrange(s.len() - suffix.len(), s.len() as int) == suffix
}

/// The outcome of checking the source file's name: it must end in `.txt`.
pub open spec fn source_name_result(name: Seq<char>) -> Result<(), FileHandlerError> {
    if ends_with(name, seq!['.', 't', 'x', 't']) {
        Ok(())
    } else {
        Err(FileHandlerError::ErrorInvalidExtension)
    }
}

/// The outcome of checking the output file's name: it must end in `.bin`.
pub open spec fn output_name_result(name: Seq<char>) -> Result<(), FileHandlerError> {
    if ends_with(name, seq!['.', 'b', 'i', 'n']) {
        Ok(())
    } else {
        Err(FileHandlerError::ErrorInvalidExtension)
    }
}

/// A source file name is accepted exactly when its last four characters
/// are `.txt`, whatever comes before them.
pub proof fn lemma_source_name_extension(name: Seq<char>)
    ensures
        source_name_result(name) is Ok <==> (name.len() >= 4 && name[name.len() - 4] == '.'
            && name[name.len() - 3] == 't' && name[name.len() - 2] == 'x' && name[name.len() - 1]
            == 't'),
        source_name_result(name) is Err ==> source_name_result(name) == Err::<
            (),
            FileHandlerError,
        >(FileHandlerError::ErrorInvalidExtension),
{
    let suffix = seq!['.', 't', 'x', 't'];
    if name.len() >= 4 {
        let tail = name.subrange(name.len() - 4, name.len() as int);
        assert(tail[0] == name[name.len() - 4]);
        assert(tail[1] == name[name.len() - 3]);
        assert(tail[2] == name[name.len() - 2]);
        assert(tail[3] == name[name.len() - 1]);
        if tail[0] == '.' && tail[1] == 't' && tail[2] == 'x' && tail[3] == 't' {
            assert(tail =~= suffix);
        }
    }
}

/// An output file name is accepted exactly when its last four characters
/// are `.bin`, whatever comes before them.
pub proof fn lemma_output_name_extension(name: Seq<char>)
    ensures
        output_name_result(name) is Ok <==> (name.len() >= 4 && name[name.len() - 4] == '.'
            && name[name.len() - 3] == 'b' && name[name.len() - 2] == 'i' && name[name.len() - 1]
            == 'n'),
        output_name_result(name) is Err ==> output_name_result(name) == Err::<
            (),
            FileHandlerError,
        >(FileHandlerError::ErrorInvalidExtension),
{
    let suffix = seq!['.', 'b', 'i', 'n'];
    if name.len() >= 4 {
        let tail = name.subrange(name.len() - 4, name.len() as int);
        assert(tail[0] == name[name.len() - 4]);
        assert(tail[1] == name[name.len() - 3]);
        assert(tail[2] == name[name.len() - 2]);
        assert(tail[3] == name[name.len() - 1]);
        if tail[0] == '.' && tail[1] == 'b' && tail[2] == 'i' && tail[3] == 'n' {
            assert(tail =~= suffix);
        }
    }
}

/// Whether the characters `v` end with `suffix`.
fn chars_end_with(v: &Vec<char>, suffix: &Vec<char>) -> (r: bool)
    ensures
        r == ends_with(v@, suffix@),
{
    if v.len() < suffix.len() {
        return false;
    }
    let off = v.len() - suffix.len();
    let mut i: usize = 0;
    while i < suffix.len()
        invariant
            off + suffix.len() == v.len(),
            i <= suffix.len(),
            forall|j: int| 0 <= j < i ==> v@[off + j] == suffix@[j],
        decreases suffix.len() - i,
    {
        if v[off + i] != suffix[i] {
            assert(v@.subrange(off as int, v.len() as int)[i as int] != suffix@[i as int]);
            return false;
        }
        i = i + 1;
    }
    assert(v@.subrange(off as int, v.len() as int) =~= suffix@);
    true
}

/// Checks that the source file's name ends in `.txt`.
pub fn check_source_file_name(source_file_name: &str) -> (r: Result<(), FileHandlerError>)
    ensures
        r == source_name_result(source_file_name@),
{
    let name = chars_of(source_file_name);
    let suffix: Vec<char> = vec!['.', 't', 'x', 't'];
    assert(suffix@ =~= seq!['.', 't', 'x', 't']);
    if chars_end_with(&name, &suffix) {
        Ok(())
    } else {
        Err(FileHandlerError::ErrorInvalidExtension)
    }
}

/// Checks that the output file's name ends in `.bin`.
pub fn check_output_file_name(binary_file_name: &str) -> (r: Result<(), FileHandlerError>)
    ensures
        r == output_name_result(binary_file_name@),
{
    let name = chars_of(binary_file_name);
    let suffix: Vec<char> = vec!['.', 'b', 'i', 'n'];
    assert(suffix@ =~= seq!['.', 'b', 'i', 'n']);
    if chars_end_with(&name, &suffix) {
        Ok(())
    } else {
        Err(FileHandlerError::ErrorInvalidExtension)
    }
}

/// The four bytes of `w`, most significant first.
pub open spec fn be_bytes(w: u32) -> Seq<u8> {
    seq![(w >> 24u32) as u8, (w >> 16u32) as u8, (w >> 8u32) as u8, w as u8]
}

/// The bytes of the words `ws`, each word big-endian, in order.
pub open spec fn be_stream(ws: Seq<u32>) -> Seq<u8>
    decreases ws.len(),
{
    if ws.len() == 0 {
        seq![]
    } else {
        be_stream(ws.drop_last()) + be_bytes(ws.last())
    }
}

/// The word that the four bytes of `b` from index `4 * i` make, most
/// significant first.
pub open spec fn word_at(b: Seq<u8>, i: int) -> u32 {
    ((b[4 * i] as u32) << 24u32) | ((b[4 * i + 1] as u32) << 16u32) | ((b[4 * i + 2] as u32)
        << 8u32) | (b[4 * i + 3] as u32)
}

/// The bytes of the encoded instructions `words`, each big-endian, in order.
pub fn to_be_bytes_all(words: &Vec<u32>) -> (bytes: Vec<u8>)
    ensures
        bytes@ == be_stream(words@),
{
    let mut bytes: Vec<u8> = Vec::new();
    let mut i: usize = 0;
    while i < words.len()
        invariant
            i <= words.len(),
            bytes@ == be_stream(words@.take(i as int)),
        decreases words.len() - i,
    {
        let w = words[i];
        let ghost before = bytes@;
        bytes.push((w >> 24u32) as u8);
        bytes.push((w >> 16u32) as u8);
        bytes.push((w >> 8u32) as u8);
        bytes.push(w as u8);
        assert(words@.take(i + 1).drop_last() =~= words@.take(i as int));
        assert(bytes@ =~= before + be_bytes(w));
        i = i + 1;
    }
    assert(words@.take(words.len() as int) =~= words@);
    bytes
}

/// Reading four big-endian bytes back gives the word they were made from.
proof fn lemma_be_bytes_word(w: u32)
    ensures
        word_at(be_bytes(w), 0) == w,
{
    let b0 = (w >> 24u32) as u8;
    let b1 = (w >> 16u32) as u8;
    let b2 = (w >> 8u32) as u8;
    let b3 = w as u8;
    assert(((b0 as u32) << 24u32) | ((b1 as u32) << 16u32) | ((b2 as u32) << 8u32) | (b3 as u32)
        == w) by (bit_vector)
        requires
            b0 == (w >> 24u32) as u8,
            b1 == (w >> 16u32) as u8,
            b2 == (w >> 8u32) as u8,
            b3 == w as u8,
    ;
}

/// The bytes written for a sequence of encoded instructions are four per
/// instruction, and reading each group of four back, big-endian, gives the
/// instruction's word.
pub proof fn lemma_be_stream_roundtrip(ws: Seq<u32>)
    ensures
        be_stream(ws).len() == 4 * ws.len(),
        forall|i: int| 0 <= i < ws.len() ==> #[trigger] word_at(be_stream(ws), i) == ws[i],
    decreases ws.len(),
{
    if ws.len() > 0 {
        let p = ws.drop_last();
        lemma_be_stream_roundtrip(p);
        lemma_be_bytes_word(ws.last());
        let s = be_stream(ws);
        let sp = be_stream(p);
        let lb = be_bytes(ws.last());
        assert(s == sp + lb);
        assert forall|i: int| 0 <= i < ws.len() implies #[trigger] word_at(s, i) == ws[i] by {
            if i < p.len() {
                assert(s[4 * i] == sp[4 * i]);
                assert(s[4 * i + 1] == sp[4 * i + 1]);
                assert(s[4 * i + 2] == sp[4 * i + 2]);
                assert(s[4 * i + 3] == sp[4 * i + 3]);
                assert(word_at(sp, i) == p[i]);
            } else {
                assert(s[4 * i] == lb[0]);
                assert(s[4 * i + 1] == lb[1]);
                assert(s[4 * i + 2] == lb[2]);
                assert(s[4 * i + 3] == lb[3]);
            }
        }
    }
}

} // verus!
