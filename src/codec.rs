//! From the bytes of a fetched file to its text lines: gzip and xz
//! decompression, UTF-8 decoding, and the split into lines.
use vstd::prelude::*;
use std::io::Read;
use vstd::utf8::{decode_utf8, valid_utf8};
use crate::error::{ErrorKind, RaptoboError};
use crate::text::{chars_of, split_by, split_str, substring, views, Separator};

verus! {

/// What a gzip stream decompresses to: `None` where it is not one.
pub uninterp spec fn gunzip_of(b: Seq<u8>) -> Option<Seq<u8>>;

/// What an xz stream decompresses to: `None` where it is not one.
pub uninterp spec fn unxz_of(b: Seq<u8>) -> Option<Seq<u8>>;

/// Relies on `String::from_utf8`, which succeeds exactly on valid UTF-8 and
/// then holds the characters that the bytes encode.
#[verifier::external_body]
fn utf8_string(bytes: Vec<u8>) -> (r: Option<String>)
    ensures
        r is Some <==> valid_utf8(bytes@),
        r matches Some(s) ==> s@ == decode_utf8(bytes@),
{
    String::from_utf8(bytes).ok()
}

/// Relies on flate2's `read::GzDecoder`, read to its end: the output depends
/// on the input bytes alone.
#[verifier::external_body]
fn gunzip(bytes: &Vec<u8>) -> (r: Option<Vec<u8>>)
    ensures
        match r {
            Some(v) => gunzip_of(bytes@) == Some(v@),
            None => gunzip_of(bytes@) is None,
        },
{
    let mut out: Vec<u8> = Vec::new();
    match flate2::read::GzDecoder::new(bytes.as_slice()).read_to_end(&mut out) {
        Ok(_) => Some(out),
        Err(_) => None,
    }
}

/// Relies on rust-lzma's `lzma::decompress`: the output depends on the input
/// bytes alone.
#[verifier::external_body]
fn unxz(bytes: &Vec<u8>) -> (r: Option<Vec<u8>>)
    ensures
        match r {
            Some(v) => unxz_of(bytes@) == Some(v@),
            None => unxz_of(bytes@) is None,
        },
{
    lzma::decompress(bytes.as_slice()).ok()
}

/// A line without one trailing carriage return.
pub open spec fn strip_cr(l: Seq<char>) -> Seq<char> {
    if l.len() > 0 && l.last() == '\r' {
        l.drop_last()
    } else {
        l
    }
}

/// The lines of a text: split at `\n`, a `\r` before it dropped.
pub open spec fn lines_of(text: Seq<char>) -> Seq<Seq<char>> {
    split_by(text, Separator::Char('\n')).map_values(|l: Seq<char>| strip_cr(l))
}

/// The lines of a text, as `lines_of` says.
pub fn text_lines(text: &str) -> (r: Vec<String>)
    ensures
        views(r@) == lines_of(text@),
{
    let pieces = split_str(text, Separator::Char('\n'));
    let ghost ps = views(pieces@);
    let mut out: Vec<String> = Vec::new();
    let mut i: usize = 0;
    while i < pieces.len()
        invariant
            i <= pieces.len(),
            ps == views(pieces@),
            ps == split_by(text@, Separator::Char('\n')),
            views(out@) == ps.take(i as int).map_values(|l: Seq<char>| strip_cr(l)),
        decreases pieces.len() - i,
    {
        let cs = chars_of(pieces[i].as_str());
        let n = cs.len();
        let line = if n > 0 && cs[n - 1] == '\r' {
            substring(pieces[i].as_str(), 0, n - 1)
        } else {
            pieces[i].clone()
        };
        proof {
            assert(ps[i as int] == pieces@[i as int]@);
            if n > 0 && cs@[n - 1] == '\r' {
                assert(line@ =~= cs@.drop_last());
            }
        }
        let ghost before = views(out@);
        out.push(line);
        assert(views(out@) =~= before.push(strip_cr(ps[i as int])));
        assert(ps.take(i + 1).map_values(|l: Seq<char>| strip_cr(l)) =~= ps.take(i as int).map_values(
            |l: Seq<char>| strip_cr(l),
        ).push(strip_cr(ps[i as int])));
        i = i + 1;
    }
    assert(ps.take(i as int) =~= ps);
    out
}

/// The lines of UTF-8 bytes; `DecodeError` where they are not UTF-8.
pub fn decode_text(bytes: Vec<u8>) -> (r: Result<Vec<String>, RaptoboError>)
    ensures
        valid_utf8(bytes@) ==> (r matches Ok(v) && views(v@) == lines_of(decode_utf8(bytes@))),
        !valid_utf8(bytes@) ==> (r matches Err(e) && e.spec_kind() == ErrorKind::DecodeError),
{
    match utf8_string(bytes) {
        Some(s) => Ok(text_lines(s.as_str())),
        None => Err(RaptoboError::with_kind(ErrorKind::DecodeError, "content is not UTF-8")),
    }
}

/// The lines of gzip-compressed UTF-8 text; `DecodeError` where the bytes
/// are no gzip stream or their content is not UTF-8.
pub fn decode_gz(bytes: &Vec<u8>) -> (r: Result<Vec<String>, RaptoboError>)
    ensures
        match gunzip_of(bytes@) {
            Some(d) => if valid_utf8(d) {
                r matches Ok(v) && views(v@) == lines_of(decode_utf8(d))
            } else {
                r matches Err(e) && e.spec_kind() == ErrorKind::DecodeError
            },
            None => r matches Err(e) && e.spec_kind() == ErrorKind::DecodeError,
        },
{
    match gunzip(bytes) {
        Some(d) => decode_text(d),
        None => Err(RaptoboError::with_kind(ErrorKind::DecodeError, "content is not gzip")),
    }
}

/// The lines of xz-compressed UTF-8 text; `DecodeError` where the bytes are
/// no xz stream or their content is not UTF-8.
pub fn decode_xz(bytes: &Vec<u8>) -> (r: Result<Vec<String>, RaptoboError>)
    ensures
        match unxz_of(bytes@) {
            Some(d) => if valid_utf8(d) {
                r matches Ok(v) && views(v@) == lines_of(decode_utf8(d))
            } else {
                r matches Err(e) && e.spec_kind() == ErrorKind::DecodeError
            },
            None => r matches Err(e) && e.spec_kind() == ErrorKind::DecodeError,
        },
{
    match unxz(bytes) {
        Some(d) => decode_text(d),
        None => Err(RaptoboError::with_kind(ErrorKind::DecodeError, "content is not xz")),
    }
}

/// How a file is compressed, by the suffix of its path.
#[derive(Debug, Clone, Copy, PartialEq, Eq, Structural)]
pub enum Compression {
    Xz,
    Gz,
    Plain,
}

/// `.xz` files are xz streams, `.gz` files gzip streams, others plain.
pub open spec fn compression_of(path: Seq<char>) -> Compression {
    if path.len() >= 3 && path.subrange(path.len() - 3, path.len() as int) == seq!['.', 'x', 'z'] {
        Compression::Xz
    } else if path.len() >= 3 && path.subrange(path.len() - 3, path.len() as int) == seq!['.', 'g', 'z'] {
        Compression::Gz
    } else {
        Compression::Plain
    }
}

/// How the file at `path` is compressed.
pub fn compression_for(path: &str) -> (r: Compression)
    ensures
        r == compression_of(path@),
{
    let cs = chars_of(path);
    let n = cs.len();
    if n < 3 {
        return Compression::Plain;
    }
    let ghost tail = cs@.subrange(n - 3, n as int);
    assert(tail[0] == cs@[n - 3] && tail[1] == cs@[n - 2] && tail[2] == cs@[n - 1]);
    assert(seq!['.', 'x', 'z'][0] == '.' && seq!['.', 'x', 'z'][1] == 'x' && seq!['.', 'x', 'z'][2] == 'z');
    assert(seq!['.', 'g', 'z'][0] == '.' && seq!['.', 'g', 'z'][1] == 'g' && seq!['.', 'g', 'z'][2] == 'z');
    if cs[n - 3] == '.' && cs[n - 2] == 'x' && cs[n - 1] == 'z' {
        assert(tail =~= seq!['.', 'x', 'z']);
        Compression::Xz
    } else if cs[n - 3] == '.' && cs[n - 2] == 'g' && cs[n - 1] == 'z' {
        assert(tail =~= seq!['.', 'g', 'z']);
        Compression::Gz
    } else {
        Compression::Plain
    }
}

/// The lines of the file at `path`, decompressed as its suffix says.
pub fn decode_file(path: &str, bytes: Vec<u8>) -> (r: Result<Vec<String>, RaptoboError>)
    ensures
        compression_of(path@) == Compression::Plain ==> (valid_utf8(bytes@) <==> r.is_ok()),
        compression_of(path@) == Compression::Gz ==> (r.is_ok() <==> (gunzip_of(bytes@) matches Some(d) && valid_utf8(d))),
        compression_of(path@) == Compression::Xz ==> (r.is_ok() <==> (unxz_of(bytes@) matches Some(d) && valid_utf8(d))),
        r matches Ok(v) ==> views(v@) == lines_of(decode_utf8(match compression_of(path@) {
            Compression::Plain => bytes@,
            Compression::Gz => gunzip_of(bytes@)->0,
            Compression::Xz => unxz_of(bytes@)->0,
        })),
        r matches Err(e) ==> e.spec_kind() == ErrorKind::DecodeError,
{
    match compression_for(path) {
        Compression::Xz => decode_xz(&bytes),
        Compression::Gz => decode_gz(&bytes),
        Compression::Plain => decode_text(bytes),
    }
}

} // verus!
