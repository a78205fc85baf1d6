//! Inline icon images: file bytes are base64-encoded and prefixed with
//! a MIME type chosen from the icon path's extension.

use vstd::prelude::*;

use crate::strutil::{eq_str, ext_spec, extension, lower_spec, push_char, to_lower};

verus! {

/// The base64 alphabet, for a value below 64.
pub open spec fn b64_char(v: int) -> char {
    if v < 26 {
        ((65 + v) as u8) as char
    } else if v < 52 {
        ((97 + (v - 26)) as u8) as char
    } else if v < 62 {
        ((48 + (v - 52)) as u8) as char
    } else if v == 62 {
        '+'
    } else {
        '/'
    }
}

/// Four output characters for a full three-byte group.
pub open spec fn enc3(a: u8, b: u8, c: u8) -> Seq<char> {
    seq![
        b64_char((a >> 2) as int),
        b64_char((((a & 3) << 4) | (b >> 4)) as int),
        b64_char((((b & 15) << 2) | (c >> 6)) as int),
        b64_char((c & 63) as int),
    ]
}

/// A trailing single byte: two characters and two padding signs.
pub open spec fn enc1(a: u8) -> Seq<char> {
    seq![b64_char((a >> 2) as int), b64_char(((a & 3) << 4) as int), '=', '=']
}

/// Two trailing bytes: three characters and one padding sign.
pub open spec fn enc2(a: u8, b: u8) -> Seq<char> {
    seq![
        b64_char((a >> 2) as int),
        b64_char((((a & 3) << 4) | (b >> 4)) as int),
        b64_char(((b & 15) << 2) as int),
        '=',
    ]
}

/// Standard base64 with padding, by three-byte groups from the front.
pub open spec fn b64_spec(bytes: Seq<u8>) -> Seq<char>
    decreases bytes.len(),
{
    if bytes.len() == 0 {
        Seq::empty()
    } else if bytes.len() == 1 {
        enc1(bytes[0])
    } else if bytes.len() == 2 {
        enc2(bytes[0], bytes[1])
    } else {
        enc3(bytes[0], bytes[1], bytes[2]) + b64_spec(bytes.skip(3))
    }
}

fn b64_char_of(v: u8) -> (c: char)
    requires
        v < 64,
    ensures
        c == b64_char(v as int),
{
    if v < 26 {
        (65 + v) as char
    } else if v < 52 {
        (97 + (v - 26)) as char
    } else if v < 62 {
        (48 + (v - 52)) as char
    } else if v == 62 {
        '+'
    } else {
        '/'
    }
}

pub fn b64_encode(bytes: &Vec<u8>) -> (r: String)
    ensures
        r@ == b64_spec(bytes@),
{
    let n = bytes.len();
    let mut out = String::new();
    let mut i: usize = 0;
    proof {
        assert(bytes@.skip(0) =~= bytes@);
        assert(out@ + b64_spec(bytes@) =~= b64_spec(bytes@));
    }
    while n - i >= 3
        invariant
            n == bytes@.len(),
            0 <= i <= n,
            b64_spec(bytes@) == out@ + b64_spec(bytes@.skip(i as int)),
        decreases n - i,
    {
        let ghost rest = bytes@.skip(i as int);
        let a = bytes[i];
        let b = bytes[i + 1];
        let c = bytes[i + 2];
        proof {
            assert(rest[0] == bytes@[i as int]);
            assert(rest[1] == bytes@[i as int + 1]);
            assert(rest[2] == bytes@[i as int + 2]);
            assert(a >> 2 < 64) by (bit_vector);
            assert(((a & 3) << 4) | (b >> 4) < 64) by (bit_vector);
            assert(((b & 15) << 2) | (c >> 6) < 64) by (bit_vector);
            assert(c & 63 < 64) by (bit_vector);
        }
        let ghost before = out@;
        push_char(&mut out, b64_char_of(a >> 2));
        push_char(&mut out, b64_char_of(((a & 3) << 4) | (b >> 4)));
        push_char(&mut out, b64_char_of(((b & 15) << 2) | (c >> 6)));
        push_char(&mut out, b64_char_of(c & 63));
        proof {
            assert(out@ =~= before + enc3(a, b, c));
            assert(rest.skip(3) =~= bytes@.skip(i + 3));
            assert(b64_spec(rest) == enc3(a, b, c) + b64_spec(bytes@.skip(i + 3)));
            assert(b64_spec(bytes@) =~= out@ + b64_spec(bytes@.skip(i + 3)));
        }
        i = i + 3;
    }
    let ghost tail = bytes@.skip(i as int);
    if n - i == 1 {
        let a = bytes[i];
        proof {
            assert(tail[0] == bytes@[i as int]);
            assert(tail.len() == 1);
            assert(a >> 2 < 64) by (bit_vector);
            assert((a & 3) << 4 < 64) by (bit_vector);
        }
        let ghost before = out@;
        push_char(&mut out, b64_char_of(a >> 2));
        push_char(&mut out, b64_char_of((a & 3) << 4));
        push_char(&mut out, '=');
        push_char(&mut out, '=');
        proof {
            assert(out@ =~= before + enc1(a));
        }
    } else if n - i == 2 {
        let a = bytes[i];
        let b = bytes[i + 1];
        proof {
            assert(tail[0] == bytes@[i as int]);
            assert(tail[1] == bytes@[i as int + 1]);
            assert(tail.len() == 2);
            assert(a >> 2 < 64) by (bit_vector);
            assert(((a & 3) << 4) | (b >> 4) < 64) by (bit_vector);
            assert((b & 15) << 2 < 64) by (bit_vector);
        }
        let ghost before = out@;
        push_char(&mut out, b64_char_of(a >> 2));
        push_char(&mut out, b64_char_of(((a & 3) << 4) | (b >> 4)));
        push_char(&mut out, b64_char_of((b & 15) << 2));
        push_char(&mut out, '=');
        proof {
            assert(out@ =~= before + enc2(a, b));
        }
    } else {
        proof {
            assert(tail.len() == 0);
            assert(out@ + b64_spec(tail) =~= out@);
        }
    }
    out
}

/// The MIME type for an icon path, from its lower-cased extension;
/// anything unrecognized counts as a PNG.
pub open spec fn mime_spec(path: Seq<char>) -> Seq<char> {
    match ext_spec(path) {
        Some(e) => {
            let l = lower_spec(e);
            if l == "png"@ {
                "image/png"@
            } else if l == "svg"@ {
                "image/svg+xml"@
            } else if l == "jpg"@ || l == "jpeg"@ {
                "image/jpeg"@
            } else {
                "image/png"@
            }
        },
        None => "image/png"@,
    }
}

pub fn mime_of(path: &str) -> (r: String)
    ensures
        r@ == mime_spec(path@),
{
    match extension(path) {
        Some(e) => {
            let low = to_lower(e.as_str());
            let l = low.as_str();
            if eq_str(l, "png") {
                String::from_str("image/png")
            } else if eq_str(l, "svg") {
                String::from_str("image/svg+xml")
            } else if eq_str(l, "jpg") || eq_str(l, "jpeg") {
                String::from_str("image/jpeg")
            } else {
                String::from_str("image/png")
            }
        },
        None => String::from_str("image/png"),
    }
}

/// The inline form of an icon: a data URL over the file's bytes.
pub open spec fn data_url_spec(path: Seq<char>, bytes: Seq<u8>) -> Seq<char> {
    "data:"@ + mime_spec(path) + ";base64,"@ + b64_spec(bytes)
}

pub fn encode_icon(path: &str, bytes: &Vec<u8>) -> (r: String)
    ensures
        r@ == data_url_spec(path@, bytes@),
{
    let mut s = String::from_str("data:");
    let mime = mime_of(path);
    s.append(mime.as_str());
    s.append(";base64,");
    let body = b64_encode(bytes);
    s.append(body.as_str());
    s
}

/// Reading an icon can fail; that failure is surfaced, unlike a launch.
#[derive(Clone, Copy, Debug, PartialEq, Eq, Structural)]
pub enum IconError {
    ReadFailure,
}

/// The boundary operation behind icon display: `bytes` is what reading
/// the file produced, or nothing when it could not be read.
pub fn icon_data(path: &str, bytes: &Option<Vec<u8>>) -> (r: Result<String, IconError>)
    ensures
        bytes is None ==> r == Err::<String, IconError>(IconError::ReadFailure),
        bytes matches Some(b) ==> (r matches Ok(s) && s@ == data_url_spec(path@, b@)),
{
    match bytes {
        Some(b) => Ok(encode_icon(path, b)),
        None => Err(IconError::ReadFailure),
    }
}

} // verus!
