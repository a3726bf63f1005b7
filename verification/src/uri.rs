//! `file://` URI codec.
//!
//! Paths become URIs by percent-encoding the characters `[ ] space # ? %`
//! and prefixing `file://`; URIs from the server are decoded once. URIs
//! this module emits round-trip exactly: see `lemma_decode_encode` and
//! `lemma_uri_round_trip`.

use vstd::prelude::*;
use vstd::string::StrSliceExecFns;
use vstd::string::StringExecFns;
use crate::strutil::starts_with_seq;
use crate::strutil::starts_with;

verus! {

/// The percent-encoding of one character: the reserved set becomes `%XX`,
/// everything else passes through.
pub open spec fn encode_char(c: char) -> Seq<char> {
    if c == '[' {
        seq!['%', '5', 'B']
    } else if c == ']' {
        seq!['%', '5', 'D']
    } else if c == ' ' {
        seq!['%', '2', '0']
    } else if c == '#' {
        seq!['%', '2', '3']
    } else if c == '?' {
        seq!['%', '3', 'F']
    } else if c == '%' {
        seq!['%', '2', '5']
    } else {
        seq![c]
    }
}

pub open spec fn encode_seq(s: Seq<char>) -> Seq<char>
    decreases s.len(),
{
    if s.len() == 0 {
        Seq::empty()
    } else {
        encode_char(s[0]) + encode_seq(s.skip(1))
    }
}

/// The value of a hexadecimal digit, or -1 for any other character.
pub open spec fn hex_digit_val(c: char) -> int {
    if '0' as int <= c as int && c as int <= '9' as int {
        c as int - '0' as int
    } else if 'a' as int <= c as int && c as int <= 'f' as int {
        10 + c as int - 'a' as int
    } else if 'A' as int <= c as int && c as int <= 'F' as int {
        10 + c as int - 'A' as int
    } else {
        -1
    }
}

/// Percent-decoding: `%` followed by two hex digits becomes the character
/// with that code; a malformed escape is passed through unchanged.
pub open spec fn decode_seq(s: Seq<char>) -> Seq<char>
    decreases s.len(),
{
    if s.len() == 0 {
        Seq::empty()
    } else if s[0] != '%' {
        seq![s[0]] + decode_seq(s.skip(1))
    } else if s.len() >= 3 {
        if hex_digit_val(s[1]) >= 0 && hex_digit_val(s[2]) >= 0 {
            seq![(((hex_digit_val(s[1]) * 16 + hex_digit_val(s[2])) as u8) as char)]
                + decode_seq(s.skip(3))
        } else {
            seq![s[0], s[1], s[2]] + decode_seq(s.skip(3))
        }
    } else {
        s
    }
}

pub open spec fn path_to_uri_spec(path: Seq<char>) -> Seq<char> {
    "file://"@ + encode_seq(path)
}

pub open spec fn uri_to_path_spec(uri: Seq<char>) -> Seq<char> {
    if starts_with_seq(uri, "file://"@) {
        decode_seq(uri.skip(7))
    } else {
        uri
    }
}

proof fn lemma_encode_snoc(s: Seq<char>, c: char)
    ensures
        encode_seq(s.push(c)) == encode_seq(s) + encode_char(c),
    decreases s.len(),
{
    if s.len() == 0 {
        assert(s.push(c)[0] == c);
        assert(s.push(c).skip(1) =~= Seq::<char>::empty());
        assert(encode_seq(Seq::<char>::empty()) =~= Seq::<char>::empty());
        assert(encode_seq(s.push(c)) =~= encode_char(c) + Seq::<char>::empty());
        assert(encode_char(c) + Seq::<char>::empty() =~= encode_char(c));
        assert(encode_seq(s) + encode_char(c) =~= encode_char(c));
        assert(encode_seq(s.push(c)) =~= encode_seq(s) + encode_char(c));
    } else {
        assert(s.push(c)[0] == s[0]);
        assert(s.push(c).skip(1) =~= s.skip(1).push(c));
        lemma_encode_snoc(s.skip(1), c);
        assert(encode_seq(s.push(c)) =~= encode_char(s[0]) + (encode_seq(s.skip(1))
            + encode_char(c)));
        assert(encode_char(s[0]) + (encode_seq(s.skip(1)) + encode_char(c)) =~= (encode_char(
            s[0],
        ) + encode_seq(s.skip(1))) + encode_char(c));
        assert(encode_seq(s.push(c)) =~= encode_seq(s) + encode_char(c));
    }
}

/// Percent-encodes the reserved characters of a filesystem path.
pub fn encode_uri_path(path: &str) -> (r: String)
    ensures
        r@ == encode_seq(path@),
{
    let n: usize = path.unicode_len();
    let mut r = String::new();
    let mut i: usize = 0;
    while i < n
        invariant
            i <= n,
            n == path@.len(),
            r@ == encode_seq(path@.take(i as int)),
        decreases n - i,
    {
        let c = path.get_char(i);
        proof {
            reveal_strlit("%5B");
            reveal_strlit("%5D");
            reveal_strlit("%20");
            reveal_strlit("%23");
            reveal_strlit("%3F");
            reveal_strlit("%25");
        }
        if c == '[' {
            r.append("%5B");
        } else if c == ']' {
            r.append("%5D");
        } else if c == ' ' {
            r.append("%20");
        } else if c == '#' {
            r.append("%23");
        } else if c == '?' {
            r.append("%3F");
        } else if c == '%' {
            r.append("%25");
        } else {
            crate::strutil::push_char(&mut r, c);
        }
        proof {
            assert(path@.take(i + 1) =~= path@.take(i as int).push(path@[i as int]));
            lemma_encode_snoc(path@.take(i as int), path@[i as int]);
            assert(r@ =~= encode_seq(path@.take(i + 1)));
        }
        i += 1;
    }
    assert(path@.take(n as int) =~= path@);
    r
}

fn hex_digit(c: char) -> (v: i32)
    ensures
        v == hex_digit_val(c),
        -1 <= v < 16,
{
    if c >= '0' && c <= '9' {
        (c as u32 as i32) - ('0' as u32 as i32)
    } else if c >= 'a' && c <= 'f' {
        10 + (c as u32 as i32) - ('a' as u32 as i32)
    } else if c >= 'A' && c <= 'F' {
        10 + (c as u32 as i32) - ('A' as u32 as i32)
    } else {
        -1
    }
}

/// Reverses the percent-encoding of `encode_uri_path`; tolerant of
/// malformed escapes, which pass through unchanged.
pub fn decode_uri_path(path: &str) -> (r: String)
    ensures
        r@ == decode_seq(path@),
{
    let n: usize = path.unicode_len();
    let mut r = String::new();
    let mut i: usize = 0;
    proof {
        assert(path@.skip(0) =~= path@);
        assert(Seq::<char>::empty() + decode_seq(path@) =~= decode_seq(path@));
    }
    while i < n
        invariant
            i <= n,
            n == path@.len(),
            decode_seq(path@) =~= r@ + decode_seq(path@.skip(i as int)),
        decreases n - i,
    {
        let ghost pre = r@;
        let ghost rest = path@.skip(i as int);
        let c = path.get_char(i);
        assert(rest[0] == path@[i as int]);
        if c != '%' {
            crate::strutil::push_char(&mut r, c);
            proof {
                assert(rest.skip(1) =~= path@.skip(i + 1));
                assert(r@ =~= pre + seq![c]);
            }
            i += 1;
        } else if n - i > 2 {
            let h1 = path.get_char(i + 1);
            let h2 = path.get_char(i + 2);
            let v1 = hex_digit(h1);
            let v2 = hex_digit(h2);
            assert(rest.len() >= 3 && rest[1] == h1 && rest[2] == h2);
            if v1 >= 0 && v2 >= 0 {
                let code: i32 = v1 * 16 + v2;
                let b: u8 = code as u8;
                crate::strutil::push_char(&mut r, b as char);
                assert(r@ =~= pre + seq![
                    (((hex_digit_val(h1) * 16 + hex_digit_val(h2)) as u8) as char),
                ]);
            } else {
                crate::strutil::push_char(&mut r, c);
                crate::strutil::push_char(&mut r, h1);
                crate::strutil::push_char(&mut r, h2);
                assert(r@ =~= pre + seq![c, h1, h2]);
            }
            proof {
                assert(rest.skip(3) =~= path@.skip(i + 3));
            }
            i += 3;
        } else {
            // A trailing "%" or "%X": passed through unchanged.
            crate::strutil::push_char(&mut r, c);
            i += 1;
            while i < n
                invariant
                    i <= n,
                    n == path@.len(),
                    decode_seq(path@) =~= r@ + path@.skip(i as int),
                decreases n - i,
            {
                let ghost pre2 = r@;
                let c2 = path.get_char(i);
                crate::strutil::push_char(&mut r, c2);
                proof {
                    assert(path@.skip(i as int)[0] == c2);
                    assert(pre2 + path@.skip(i as int) =~= (pre2 + seq![c2]) + path@.skip(
                        i + 1,
                    ));
                }
                i += 1;
            }
            proof {
                assert(path@.skip(n as int) =~= Seq::<char>::empty());
            }
        }
    }
    proof {
        assert(path@.skip(n as int) =~= Seq::<char>::empty());
        assert(decode_seq(path@) =~= r@);
    }
    r
}

/// Turns an absolute filesystem path into a `file://` URI.
pub fn path_to_uri(path: &str) -> (r: String)
    ensures
        r@ == path_to_uri_spec(path@),
{
    let mut r = String::from_str("file://");
    let encoded = encode_uri_path(path);
    r.append(encoded.as_str());
    r
}

/// Turns a `file://` URI back into a filesystem path; anything else is
/// returned unchanged.
pub fn uri_to_path(uri: &str) -> (r: String)
    ensures
        r@ == uri_to_path_spec(uri@),
{
    proof {
        reveal_strlit("file://");
    }
    let n: usize = uri.unicode_len();
    if starts_with(uri, "file://") {
        let rest = uri.substring_char(7, n);
        assert(rest@ =~= uri@.skip(7));
        decode_uri_path(rest)
    } else {
        String::from_str(uri)
    }
}

/// Decoding inverts encoding: for any path, encoding then decoding gives
/// the path back, character for character.
pub proof fn lemma_decode_encode(p: Seq<char>)
    ensures
        decode_seq(encode_seq(p)) == p,
    decreases p.len(),
{
    if p.len() == 0 {
        assert(decode_seq(encode_seq(p)) =~= p);
    } else {
        let c = p[0];
        let rest = p.skip(1);
        lemma_decode_encode(rest);
        let e = encode_seq(p);
        assert(e == encode_char(c) + encode_seq(rest));
        if c == '[' || c == ']' || c == ' ' || c == '#' || c == '?' || c == '%' {
            assert(e[0] == '%');
            assert(e.len() >= 3);
            assert(e[1] == encode_char(c)[1] && e[2] == encode_char(c)[2]);
            assert(e.skip(3) =~= encode_seq(rest));
            assert(hex_digit_val(e[1]) >= 0 && hex_digit_val(e[2]) >= 0);
            assert((((hex_digit_val(e[1]) * 16 + hex_digit_val(e[2])) as u8) as char) == c);
            assert(decode_seq(e) =~= p);
        } else {
            assert(e[0] == c);
            assert(e.skip(1) =~= encode_seq(rest));
            assert(decode_seq(e) =~= p);
        }
    }
}

/// URIs this codec emits round-trip: decoding an emitted URI and encoding
/// the result reproduces the URI, and a path survives the full cycle.
pub proof fn lemma_uri_round_trip(p: Seq<char>)
    ensures
        uri_to_path_spec(path_to_uri_spec(p)) == p,
        path_to_uri_spec(uri_to_path_spec(path_to_uri_spec(p))) == path_to_uri_spec(p),
{
    reveal_strlit("file://");
    let u = path_to_uri_spec(p);
    assert(u.subrange(0, 7) =~= "file://"@);
    assert(starts_with_seq(u, "file://"@));
    assert(u.skip(7) =~= encode_seq(p));
    lemma_decode_encode(p);
}

} // verus!
