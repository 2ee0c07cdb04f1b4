//! Percent-decoding and URL-encoded form bodies: `%XY` escapes become
//! bytes, `+` becomes a space, and a body of `key=value` pairs joined by
//! `&` becomes a string map.

use vstd::prelude::*;

verus! {

use vstd::string::StrSliceExecFns;
use vstd::utf8::decode_utf8;
use vstd::utf8::encode_utf8;
use vstd::utf8::valid_utf8;
use crate::http::HttpRequestMessage;
use crate::strmap::StringMap;
use crate::strutil::bytes_as_str;
use crate::strutil::bytes_to_string_lossy;
use crate::strutil::find_char_from;
use crate::strutil::lossy_decoded;
use crate::strutil::spec_find_char;

/// Value of a hexadecimal digit byte, upper or lower case.
pub open spec fn spec_from_hex(b: u8) -> Option<u8> {
    if 48 <= b <= 57 {
        Some((b - 48) as u8)
    } else if 65 <= b <= 70 {
        Some((b - 55) as u8)
    } else if 97 <= b <= 102 {
        Some((b - 87) as u8)
    } else {
        None
    }
}

pub fn from_hex(byte: u8) -> (r: Option<u8>)
    ensures
        r == spec_from_hex(byte),
{
    if 48 <= byte && byte <= 57 {
        Some(byte - 48)
    } else if 65 <= byte && byte <= 70 {
        Some(byte - 55)
    } else if 97 <= byte && byte <= 102 {
        Some(byte - 87)
    } else {
        None
    }
}

/// Percent-decoded bytes: a `%` followed by two hex digits becomes one
/// byte; anything else, a lone `%` included, passes through unchanged.
pub open spec fn spec_percent_decode(input: Seq<u8>) -> Seq<u8>
    decreases input.len(),
{
    if input.len() == 0 {
        Seq::<u8>::empty()
    } else if input[0] == 37 && input.len() >= 3 && spec_from_hex(input[1]) is Some
        && spec_from_hex(input[2]) is Some {
        seq![
            (spec_from_hex(input[1]).unwrap() * 16 + spec_from_hex(input[2]).unwrap()) as u8,
        ] + spec_percent_decode(input.skip(3))
    } else {
        seq![input[0]] + spec_percent_decode(input.skip(1))
    }
}

/// Percent-decode `input` and append the result to `output`.
pub fn percent_decode_to(input: &[u8], output: &mut Vec<u8>)
    ensures
        final(output)@ == old(output)@ + spec_percent_decode(input@),
{
    let n = input.len();
    let mut i: usize = 0;
    proof {
        assert(input@.skip(0) =~= input@);
    }
    while i < n
        invariant
            0 <= i <= n,
            n == input@.len(),
            old(output)@ + spec_percent_decode(input@) == output@ + spec_percent_decode(
                input@.skip(i as int),
            ),
        decreases n - i,
    {
        let ghost rest = input@.skip(i as int);
        let c = input[i];
        if c == 37 && n - i > 2 {
            let h = from_hex(input[i + 1]);
            let l = from_hex(input[i + 2]);
            match (h, l) {
                (Some(hv), Some(lv)) => {
                    output.push(hv * 16 + lv);
                    proof {
                        assert(rest.skip(3) =~= input@.skip(i + 3));
                        assert(output@ + spec_percent_decode(input@.skip(i + 3)) =~= old(output)@
                            + spec_percent_decode(input@));
                    }
                    i += 3;
                },
                _ => {
                    output.push(c);
                    proof {
                        assert(rest.skip(1) =~= input@.skip(i + 1));
                        assert(output@ + spec_percent_decode(input@.skip(i + 1)) =~= old(output)@
                            + spec_percent_decode(input@));
                    }
                    i += 1;
                },
            }
        } else {
            output.push(c);
            proof {
                assert(rest.skip(1) =~= input@.skip(i + 1));
                assert(output@ + spec_percent_decode(input@.skip(i + 1)) =~= old(output)@
                    + spec_percent_decode(input@));
            }
            i += 1;
        }
    }
    proof {
        assert(input@.skip(n as int) =~= Seq::<u8>::empty());
        assert(final(output)@ =~= old(output)@ + spec_percent_decode(input@));
    }
}

/// Percent-decode `input` into a fresh vector.
pub fn percent_decode(input: &[u8]) -> (r: Vec<u8>)
    ensures
        r@ == spec_percent_decode(input@),
{
    let mut output: Vec<u8> = Vec::new();
    percent_decode_to(input, &mut output);
    proof {
        assert(output@ =~= spec_percent_decode(input@));
    }
    output
}

/// Form fields encode spaces as `+`.
pub open spec fn spec_replace_plus(s: Seq<u8>) -> Seq<u8> {
    s.map_values(|b: u8| if b == 43 { 32u8 } else { b })
}

fn replace_plus(input: &[u8]) -> (r: Vec<u8>)
    ensures
        r@ == spec_replace_plus(input@),
{
    let n = input.len();
    let mut out: Vec<u8> = Vec::new();
    let mut i: usize = 0;
    while i < n
        invariant
            0 <= i <= n,
            n == input@.len(),
            out@.len() == i,
            forall|j: int|
                0 <= j < i ==> out@[j] == (if input@[j] == 43 {
                    32u8
                } else {
                    input@[j]
                }),
        decreases n - i,
    {
        let b = input[i];
        if b == 43 {
            out.push(32);
        } else {
            out.push(b);
        }
        i += 1;
    }
    proof {
        assert(out@ =~= spec_replace_plus(input@));
    }
    out
}

/// How one form field component decodes: `+` to space, percent escapes
/// to bytes, then a lossy UTF-8 read.
pub open spec fn spec_decoded_component(s: Seq<char>) -> Seq<char> {
    lossy_decoded(spec_percent_decode(spec_replace_plus(encode_utf8(s))))
}

/// Decode one form field: `+` to space, percent escapes, lossy UTF-8.
pub fn percent_decode_str(input: &str) -> (r: String)
    ensures
        r@ == spec_decoded_component(input@),
{
    let b = input.as_bytes_vec();
    let rp = replace_plus(b.as_slice());
    let dec = percent_decode(rp.as_slice());
    bytes_to_string_lossy(dec.as_slice())
}

/// Percent-decode raw bytes and read them as UTF-8, replacing invalid
/// sequences.
pub fn lossy_utf8_percent_decode(input: &[u8]) -> (r: String)
    ensures
        r@ == lossy_decoded(spec_percent_decode(input@)),
{
    let dec = percent_decode(input);
    bytes_to_string_lossy(dec.as_slice())
}

/// The pair one `&`-separated piece contributes: only a piece with
/// exactly one `=` counts, both sides decoded.
pub open spec fn spec_form_piece(piece: Seq<char>) -> Option<(Seq<char>, Seq<char>)> {
    let e = spec_find_char(piece, '=', 0);
    if e < 0 {
        None
    } else {
        let k = piece.take(e);
        let v = piece.skip(e + 1);
        if spec_find_char(v, '=', 0) >= 0 {
            None
        } else {
            Some((spec_decoded_component(k), spec_decoded_component(v)))
        }
    }
}

/// The map a form body denotes: pieces split on `&`, each contributing
/// its pair, later pairs overwriting earlier ones.
pub open spec fn spec_form_map(s: Seq<char>, acc: Map<Seq<char>, Seq<char>>) -> Map<
    Seq<char>,
    Seq<char>,
>
    decreases s.len(),
{
    let a = spec_find_char(s, '&', 0);
    if a < 0 || a >= s.len() {
        match spec_form_piece(s) {
            Some(kv) => acc.insert(kv.0, kv.1),
            None => acc,
        }
    } else {
        let acc2 = match spec_form_piece(s.take(a)) {
            Some(kv) => acc.insert(kv.0, kv.1),
            None => acc,
        };
        spec_form_map(s.skip(a + 1), acc2)
    }
}

/// Add the pair of one piece, if it has one.
fn apply_form_piece(piece: &str, map: &mut StringMap)
    requires
        old(map).wf(),
    ensures
        final(map).wf(),
        final(map)@ == match spec_form_piece(piece@) {
            Some(kv) => old(map)@.insert(kv.0, kv.1),
            None => old(map)@,
        },
{
    let e = match find_char_from(piece, '=', 0) {
        Some(e) => e,
        None => {
            return ;
        },
    };
    let pn = piece.unicode_len();
    let k = piece.substring_char(0, e);
    let v = piece.substring_char(e + 1, pn);
    proof {
        assert(v@ =~= piece@.skip(e + 1));
    }
    if find_char_from(v, '=', 0).is_none() {
        map.insert(percent_decode_str(k), percent_decode_str(v));
    }
}

/// Read a URL-encoded form body into a map.
pub fn parse_urlencoded_form(body: &str) -> (r: StringMap)
    ensures
        r.wf(),
        r@ == spec_form_map(body@, Map::<Seq<char>, Seq<char>>::empty()),
{
    let mut map = StringMap::new();
    let mut p: &str = body;
    loop
        invariant_except_break
            map.wf(),
            spec_form_map(body@, Map::<Seq<char>, Seq<char>>::empty()) == spec_form_map(p@, map@),
        ensures
            map.wf(),
            map@ == spec_form_map(body@, Map::<Seq<char>, Seq<char>>::empty()),
        decreases p@.len(),
    {
        let pn = p.unicode_len();
        match find_char_from(p, '&', 0) {
            None => {
                apply_form_piece(p, &mut map);
                break ;
            },
            Some(a) => {
                let piece = p.substring_char(0, a);
                apply_form_piece(piece, &mut map);
                let next = p.substring_char(a + 1, pn);
                proof {
                    assert(next@ =~= p@.skip(a + 1));
                }
                p = next;
            },
        }
    }
    map
}

/// Reads a request body as a URL-encoded form.
pub struct BodyFormParser;

/// The form a request body denotes: nothing unless the body is UTF-8.
pub open spec fn spec_body_form(body: Seq<u8>) -> Map<Seq<char>, Seq<char>> {
    if valid_utf8(body) {
        spec_form_map(decode_utf8(body), Map::<Seq<char>, Seq<char>>::empty())
    } else {
        Map::<Seq<char>, Seq<char>>::empty()
    }
}

impl BodyFormParser {
    /// Decode the request body as a form; a non-UTF-8 body gives an
    /// empty map.
    pub fn parse(req: &HttpRequestMessage) -> (r: StringMap)
        ensures
            r.wf(),
            r@ == spec_body_form(req.body@),
    {
        match bytes_as_str(req.body.as_slice()) {
            Some(s) => parse_urlencoded_form(s),
            None => StringMap::new(),
        }
    }
}

} // verus!
