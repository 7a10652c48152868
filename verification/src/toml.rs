//! Parser for the configuration source: a line-oriented TOML document of
//! top-level `key = value` pairs.
//!
//! Accepted grammar, per line: optional whitespace, then either nothing, a
//! `#` comment, or `key = value` with an optional trailing comment. A key is
//! a bare TOML key (letters, digits, `_`, `-`); a value is a basic string in
//! double quotes (with the escapes `\"`, `\\`, `\n`, `\t`, `\r`) or an
//! integer whose magnitude fits in 64 signed bits. Anything else is a syntax
//! error: configuration is either well-formed or the service must not start.
//!
//! The functions are specified against spec functions that define the
//! grammar directly over the character sequence of the input.

use vstd::prelude::*;
use vstd::string::*;

use crate::text::push_char;

verus! {

/// A parsed value: a string or an integer.
pub enum TomlValue {
    Str(String),
    Int(i64),
}

/// The mathematical counterpart of [`TomlValue`].
pub ghost enum SpecValue {
    Str(Seq<char>),
    Int(int),
}

/// What one line of the document contributes: nothing, one key/value pair,
/// or a syntax error.
pub ghost enum LineParse {
    Blank,
    Pair(Seq<char>, SpecValue),
    Bad,
}

/// The model of an executable value.
pub open spec fn value_model(v: TomlValue) -> SpecValue {
    match v {
        TomlValue::Str(s) => SpecValue::Str(s@),
        TomlValue::Int(n) => SpecValue::Int(n as int),
    }
}

/// Whitespace inside a line.
pub open spec fn is_ws(c: char) -> bool {
    c == ' ' || c == '\t'
}

/// A character of a bare key.
pub open spec fn is_key_char(c: char) -> bool {
    (97 <= c as u32 && c as u32 <= 122)  // a-z
     || (65 <= c as u32 && c as u32 <= 90)  // A-Z
     || (48 <= c as u32 && c as u32 <= 57)  // 0-9
     || c == '_' || c == '-'
}

/// A decimal digit.
pub open spec fn is_digit(c: char) -> bool {
    48 <= c as u32 && c as u32 <= 57
}

/// Numeric value of a decimal digit.
pub open spec fn digit_val(c: char) -> int {
    c as u32 - 48
}

/// First index at or after `i` holding a non-whitespace character
/// (`t.len()` if there is none).
pub open spec fn skip_ws(t: Seq<char>, i: int) -> int
    decreases t.len() - i,
{
    if i < 0 || i >= t.len() {
        i
    } else if is_ws(t[i]) {
        skip_ws(t, i + 1)
    } else {
        i
    }
}

/// First index at or after `i` that does not hold a key character.
pub open spec fn key_end(t: Seq<char>, i: int) -> int
    decreases t.len() - i,
{
    if i < 0 || i >= t.len() {
        i
    } else if is_key_char(t[i]) {
        key_end(t, i + 1)
    } else {
        i
    }
}

/// The character an escape sequence `\c` stands for, if `c` is a supported
/// escape.
pub open spec fn escape_char(c: char) -> Option<char> {
    if c == '"' {
        Some('"')
    } else if c == '\\' {
        Some('\\')
    } else if c == 'n' {
        Some('\n')
    } else if c == 't' {
        Some('\t')
    } else if c == 'r' {
        Some('\r')
    } else {
        None
    }
}

/// Scans the body of a quoted string starting at `i` (just after the opening
/// quote), accumulating the decoded characters onto `acc`. Returns the
/// decoded string and the index just after the closing quote, or `None` for
/// an unterminated string or unsupported escape.
pub open spec fn scan_string(t: Seq<char>, i: int, acc: Seq<char>) -> Option<(Seq<char>, int)>
    decreases t.len() - i,
{
    if i < 0 || i >= t.len() {
        None
    } else if t[i] == '"' {
        Some((acc, i + 1))
    } else if t[i] == '\\' {
        if i + 1 >= t.len() {
            None
        } else {
            match escape_char(t[i + 1]) {
                Some(e) => scan_string(t, i + 2, acc.push(e)),
                None => None,
            }
        }
    } else {
        scan_string(t, i + 1, acc.push(t[i]))
    }
}

/// Scans a run of decimal digits starting at `i`, accumulating onto `acc`.
/// Returns the value and the index after the last digit; `None` if the value
/// would exceed `i64::MAX` in magnitude.
pub open spec fn scan_digits(t: Seq<char>, i: int, acc: int) -> Option<(int, int)>
    decreases t.len() - i,
{
    if i < 0 || i >= t.len() || !is_digit(t[i]) {
        Some((acc, i))
    } else if acc > (0x7fff_ffff_ffff_ffff - digit_val(t[i])) / 10 {
        None
    } else {
        scan_digits(t, i + 1, acc * 10 + digit_val(t[i]))
    }
}

/// Scans one value starting at `i`: a quoted string or an integer. Returns
/// the value and the index just after it.
pub open spec fn scan_value(t: Seq<char>, i: int) -> Option<(SpecValue, int)> {
    if i < 0 || i >= t.len() {
        None
    } else if t[i] == '"' {
        match scan_string(t, i + 1, Seq::empty()) {
            Some((s, e)) => Some((SpecValue::Str(s), e)),
            None => None,
        }
    } else if t[i] == '-' {
        if i + 1 < t.len() && is_digit(t[i + 1]) {
            match scan_digits(t, i + 1, 0) {
                Some((n, e)) => Some((SpecValue::Int(-n), e)),
                None => None,
            }
        } else {
            None
        }
    } else if is_digit(t[i]) {
        match scan_digits(t, i, 0) {
            Some((n, e)) => Some((SpecValue::Int(n), e)),
            None => None,
        }
    } else {
        None
    }
}

/// Parses one line of the document (a trailing carriage return is ignored).
pub open spec fn parse_line_spec(l: Seq<char>) -> LineParse {
    let t = if l.len() > 0 && l.last() == '\r' {
        l.drop_last()
    } else {
        l
    };
    let i = skip_ws(t, 0);
    if i >= t.len() {
        LineParse::Blank
    } else if t[i] == '#' {
        LineParse::Blank
    } else {
        let j = key_end(t, i);
        if j == i {
            LineParse::Bad
        } else {
            let k = skip_ws(t, j);
            if k >= t.len() || t[k] != '=' {
                LineParse::Bad
            } else {
                let v = skip_ws(t, k + 1);
                match scan_value(t, v) {
                    None => LineParse::Bad,
                    Some((val, e)) => {
                        let e2 = skip_ws(t, e);
                        if e2 >= t.len() || t[e2] == '#' {
                            LineParse::Pair(t.subrange(i, j), val)
                        } else {
                            LineParse::Bad
                        }
                    },
                }
            }
        }
    }
}

/// Index of the first newline at or after `i` (`s.len()` if there is none).
pub open spec fn find_nl(s: Seq<char>, i: int) -> int
    decreases s.len() - i,
{
    if i < 0 || i >= s.len() {
        s.len() as int
    } else if s[i] == '\n' {
        i
    } else {
        find_nl(s, i + 1)
    }
}

/// Parses a whole document into its key/value pairs in order of appearance;
/// `None` for a syntax error on any line.
pub open spec fn parse_doc(s: Seq<char>) -> Option<Seq<(Seq<char>, SpecValue)>>
    decreases s.len(),
{
    let i = find_nl(s, 0);
    if i < 0 || i >= s.len() {
        match parse_line_spec(s) {
            LineParse::Bad => None,
            LineParse::Blank => Some(Seq::empty()),
            LineParse::Pair(k, v) => Some(seq![(k, v)]),
        }
    } else {
        match parse_line_spec(s.subrange(0, i)) {
            LineParse::Bad => None,
            line => match parse_doc(s.subrange(i + 1, s.len() as int)) {
                None => None,
                Some(ps) => match line {
                    LineParse::Blank => Some(ps),
                    LineParse::Pair(k, v) => Some(seq![(k, v)] + ps),
                    LineParse::Bad => None,
                },
            },
        }
    }
}

/// The models of a sequence of parsed pairs.
pub open spec fn pairs_model(ps: Seq<(String, TomlValue)>) -> Seq<(Seq<char>, SpecValue)> {
    ps.map_values(|p: (String, TomlValue)| (p.0@, value_model(p.1)))
}

fn skip_ws_at(l: &str, tlen: usize, i: usize) -> (r: usize)
    requires
        i <= tlen && tlen <= l@.len(),
    ensures
        i <= r <= tlen,
        r as int == skip_ws(l@.subrange(0, tlen as int), i as int),
{
    let ghost t = l@.subrange(0, tlen as int);
    let mut p: usize = i;
    loop
        invariant
            i <= p <= tlen,
            tlen <= l@.len(),
            t == l@.subrange(0, tlen as int),
            skip_ws(t, i as int) == skip_ws(t, p as int),
        ensures
            i <= p <= tlen,
            skip_ws(t, i as int) == p as int,
        decreases tlen - p,
    {
        if p >= tlen {
            break;
        }
        let c = l.get_char(p);
        proof {
            assert(t[p as int] == l@[p as int]);
        }
        if c == ' ' || c == '\t' {
            p = p + 1;
        } else {
            proof {
                assert(!is_ws(t[p as int]));
            }
            break;
        }
    }
    p
}

fn key_end_at(l: &str, tlen: usize, i: usize) -> (r: usize)
    requires
        i <= tlen && tlen <= l@.len(),
    ensures
        i <= r <= tlen,
        r as int == key_end(l@.subrange(0, tlen as int), i as int),
{
    let ghost t = l@.subrange(0, tlen as int);
    let mut p: usize = i;
    loop
        invariant
            i <= p <= tlen,
            tlen <= l@.len(),
            t == l@.subrange(0, tlen as int),
            key_end(t, i as int) == key_end(t, p as int),
        ensures
            i <= p <= tlen,
            key_end(t, i as int) == p as int,
        decreases tlen - p,
    {
        if p >= tlen {
            break;
        }
        let c = l.get_char(p);
        let u = c as u32;
        proof {
            assert(t[p as int] == l@[p as int]);
        }
        if (97 <= u && u <= 122) || (65 <= u && u <= 90) || (48 <= u && u <= 57) || c == '_'
            || c == '-' {
            proof {
                assert(is_key_char(t[p as int]));
            }
            p = p + 1;
        } else {
            proof {
                assert(!is_key_char(t[p as int]));
            }
            break;
        }
    }
    p
}

fn scan_digits_at(l: &str, tlen: usize, i: usize) -> (r: Result<(u64, usize), ()>)
    requires
        i <= tlen && tlen <= l@.len(),
    ensures
        (match r {
            Ok(p) => i <= p.1 <= tlen && p.0 <= 0x7fff_ffff_ffff_ffff && scan_digits(
                l@.subrange(0, tlen as int),
                i as int,
                0,
            ) == Some((p.0 as int, p.1 as int)),
            Err(_) => scan_digits(l@.subrange(0, tlen as int), i as int, 0) is None,
        }),
{
    let ghost t = l@.subrange(0, tlen as int);
    let mut p: usize = i;
    let mut acc: u64 = 0;
    loop
        invariant
            i <= p <= tlen,
            tlen <= l@.len(),
            t == l@.subrange(0, tlen as int),
            acc <= 0x7fff_ffff_ffff_ffff,
            scan_digits(t, i as int, 0) == scan_digits(t, p as int, acc as int),
        ensures
            i <= p <= tlen,
            acc <= 0x7fff_ffff_ffff_ffff,
            scan_digits(t, i as int, 0) == Some((acc as int, p as int)),
        decreases tlen - p,
    {
        if p >= tlen {
            break;
        }
        let c = l.get_char(p);
        let u = c as u32;
        proof {
            assert(t[p as int] == l@[p as int]);
        }
        if !(48 <= u && u <= 57) {
            proof {
                assert(!is_digit(t[p as int]));
            }
            break;
        }
        let d = (u - 48) as u64;
        proof {
            assert(d as int == digit_val(t[p as int]));
        }
        if acc > (0x7fff_ffff_ffff_ffffu64 - d) / 10 {
            proof {
                assert(scan_digits(t, p as int, acc as int) is None);
            }
            return Err(());
        }
        proof {
            assert(acc * 10 + d <= 0x7fff_ffff_ffff_ffff) by {
                let m = 0x7fff_ffff_ffff_ffff as int;
                assert(acc as int <= (m - d) / 10);
                assert(10 * ((m - d) / 10) <= m - d);
                assert(10 * (acc as int) <= 10 * ((m - d) / 10));
            }
        }
        acc = acc * 10 + d;
        p = p + 1;
    }
    Ok((acc, p))
}

fn scan_string_at(l: &str, tlen: usize, i: usize) -> (r: Result<(String, usize), ()>)
    requires
        i <= tlen && tlen <= l@.len(),
    ensures
        (match r {
            Ok(p) => i <= p.1 <= tlen && scan_string(
                l@.subrange(0, tlen as int),
                i as int,
                Seq::empty(),
            ) == Some((p.0@, p.1 as int)),
            Err(_) => scan_string(l@.subrange(0, tlen as int), i as int, Seq::empty()) is None,
        }),
{
    let ghost t = l@.subrange(0, tlen as int);
    let mut p: usize = i;
    let mut res = String::new();
    loop
        invariant
            i <= p <= tlen,
            tlen <= l@.len(),
            t == l@.subrange(0, tlen as int),
            scan_string(t, i as int, Seq::empty()) == scan_string(t, p as int, res@),
        decreases tlen - p,
    {
        if p >= tlen {
            return Err(());
        }
        let c = l.get_char(p);
        proof {
            assert(t[p as int] == l@[p as int]);
        }
        if c == '"' {
            return Ok((res, p + 1));
        }
        if c == '\\' {
            if p + 1 >= tlen {
                return Err(());
            }
            let c2 = l.get_char(p + 1);
            proof {
                assert(t[p as int + 1] == l@[p as int + 1]);
            }
            let e = match c2 {
                '"' => '"',
                '\\' => '\\',
                'n' => '\n',
                't' => '\t',
                'r' => '\r',
                _ => {
                    proof {
                        assert(escape_char(t[p as int + 1]) is None);
                    }
                    return Err(());
                },
            };
            proof {
                assert(escape_char(t[p as int + 1]) == Some(e));
            }
            push_char(&mut res, e);
            p = p + 2;
        } else {
            push_char(&mut res, c);
            p = p + 1;
        }
    }
}

fn scan_value_at(l: &str, tlen: usize, i: usize) -> (r: Result<(TomlValue, usize), ()>)
    requires
        i <= tlen && tlen <= l@.len(),
    ensures
        (match r {
            Ok(p) => i <= p.1 <= tlen && scan_value(l@.subrange(0, tlen as int), i as int)
                == Some((value_model(p.0), p.1 as int)),
            Err(_) => scan_value(l@.subrange(0, tlen as int), i as int) is None,
        }),
{
    let ghost t = l@.subrange(0, tlen as int);
    if i >= tlen {
        return Err(());
    }
    let c = l.get_char(i);
    let u = c as u32;
    proof {
        assert(t[i as int] == l@[i as int]);
    }
    if c == '"' {
        match scan_string_at(l, tlen, i + 1) {
            Ok(p) => Ok((TomlValue::Str(p.0), p.1)),
            Err(_) => Err(()),
        }
    } else if c == '-' {
        if i + 1 >= tlen {
            return Err(());
        }
        let c2 = l.get_char(i + 1);
        let u2 = c2 as u32;
        proof {
            assert(t[i as int + 1] == l@[i as int + 1]);
        }
        if !(48 <= u2 && u2 <= 57) {
            proof {
                assert(!is_digit(t[i as int + 1]));
            }
            return Err(());
        }
        match scan_digits_at(l, tlen, i + 1) {
            Ok(p) => {
                let n = p.0 as i64;
                Ok((TomlValue::Int(-n), p.1))
            },
            Err(_) => Err(()),
        }
    } else if 48 <= u && u <= 57 {
        match scan_digits_at(l, tlen, i) {
            Ok(p) => Ok((TomlValue::Int(p.0 as i64), p.1)),
            Err(_) => Err(()),
        }
    } else {
        proof {
            assert(scan_value(t, i as int) is None);
        }
        Err(())
    }
}

/// Parses one line; `Ok(None)` for a blank or comment line, `Ok(Some(..))`
/// for a key/value pair, `Err` for a syntax error.
pub fn parse_line(l: &str) -> (r: Result<Option<(String, TomlValue)>, ()>)
    ensures
        (match r {
            Err(_) => parse_line_spec(l@) is Bad,
            Ok(None) => parse_line_spec(l@) is Blank,
            Ok(Some(p)) => parse_line_spec(l@) == LineParse::Pair(p.0@, value_model(p.1)),
        }),
{
    let len = l.unicode_len();
    let tlen: usize = if len > 0 && l.get_char(len - 1) == '\r' {
        len - 1
    } else {
        len
    };
    let ghost t = l@.subrange(0, tlen as int);
    proof {
        if l@.len() > 0 && l@.last() == '\r' {
            assert(t =~= l@.drop_last());
        } else {
            assert(t =~= l@);
        }
    }
    let i = skip_ws_at(l, tlen, 0);
    if i >= tlen {
        return Ok(None);
    }
    let c = l.get_char(i);
    proof {
        assert(t[i as int] == l@[i as int]);
    }
    if c == '#' {
        return Ok(None);
    }
    let j = key_end_at(l, tlen, i);
    if j == i {
        return Err(());
    }
    let k = skip_ws_at(l, tlen, j);
    if k >= tlen {
        return Err(());
    }
    let ce = l.get_char(k);
    proof {
        assert(t[k as int] == l@[k as int]);
    }
    if ce != '=' {
        return Err(());
    }
    match scan_value_at(l, tlen, skip_ws_at(l, tlen, k + 1)) {
        Err(_) => Err(()),
        Ok(ve) => {
            let e2 = skip_ws_at(l, tlen, ve.1);
            if e2 < tlen {
                let cc = l.get_char(e2);
                proof {
                    assert(t[e2 as int] == l@[e2 as int]);
                }
                if cc != '#' {
                    return Err(());
                }
            }
            let key = l.substring_char(i, j).to_owned();
            proof {
                assert(key@ =~= t.subrange(i as int, j as int));
            }
            Ok(Some((key, ve.0)))
        },
    }
}

fn find_nl_at(l: &str, i: usize) -> (r: usize)
    requires
        i <= l@.len(),
    ensures
        i <= r <= l@.len(),
        r as int == find_nl(l@, i as int),
{
    let len = l.unicode_len();
    let mut p: usize = i;
    loop
        invariant
            i <= p <= len,
            len == l@.len(),
            find_nl(l@, i as int) == find_nl(l@, p as int),
        ensures
            i <= p <= len,
            find_nl(l@, i as int) == p as int,
        decreases len - p,
    {
        if p >= len {
            break;
        }
        let c = l.get_char(p);
        if c == '\n' {
            break;
        }
        p = p + 1;
    }
    p
}

proof fn lemma_find_nl_sub(s: Seq<char>, pos: int, j: int)
    requires
        0 <= pos <= s.len(),
        0 <= j,
    ensures
        find_nl(s.subrange(pos, s.len() as int), j) == find_nl(s, pos + j) - pos,
    decreases s.len() - pos - j,
{
    let rest = s.subrange(pos, s.len() as int);
    if pos + j >= s.len() {
        assert(find_nl(rest, j) == rest.len());
        assert(find_nl(s, pos + j) == s.len());
    } else {
        assert(rest[j] == s[pos + j]);
        if s[pos + j] == '\n' {
        } else {
            lemma_find_nl_sub(s, pos, j + 1);
        }
    }
}

/// Parses a whole document into its key/value pairs, in order; `Err` when
/// any line is malformed.
pub fn parse_document(s: &str) -> (r: Result<Vec<(String, TomlValue)>, ()>)
    ensures
        (match r {
            Ok(ps) => parse_doc(s@) == Some(pairs_model(ps@)),
            Err(_) => parse_doc(s@) is None,
        }),
{
    let len = s.unicode_len();
    let mut pos: usize = 0;
    let mut acc: Vec<(String, TomlValue)> = Vec::new();
    proof {
        assert(pairs_model(acc@) =~= Seq::<(Seq<char>, SpecValue)>::empty());
        assert(s@.subrange(0, s@.len() as int) =~= s@);
        if parse_doc(s@) is Some {
            assert(pairs_model(acc@) + parse_doc(s@)->Some_0 =~= parse_doc(s@)->Some_0);
        }
    }
    loop
        invariant
            pos <= len,
            len == s@.len(),
            parse_doc(s@) == (match parse_doc(s@.subrange(pos as int, s@.len() as int)) {
                None => None,
                Some(ps) => Some(pairs_model(acc@) + ps),
            }),
        decreases len - pos,
    {
        let ghost rest = s@.subrange(pos as int, s@.len() as int);
        let nl = find_nl_at(s, pos);
        proof {
            lemma_find_nl_sub(s@, pos as int, 0);
            assert(find_nl(rest, 0) == nl - pos);
        }
        let line = s.substring_char(pos, nl);
        proof {
            assert(line@ =~= s@.subrange(pos as int, nl as int));
        }
        if nl >= len {
            proof {
                assert(line@ =~= rest);
            }
            match parse_line(line) {
                Err(_) => {
                    return Err(());
                },
                Ok(None) => {
                    proof {
                        assert(parse_doc(rest) == Some(Seq::<(Seq<char>, SpecValue)>::empty()));
                        assert(pairs_model(acc@) + Seq::<(Seq<char>, SpecValue)>::empty()
                            =~= pairs_model(acc@));
                    }
                    return Ok(acc);
                },
                Ok(Some(p)) => {
                    let ghost accm = pairs_model(acc@);
                    let ghost pm = (p.0@, value_model(p.1));
                    proof {
                        assert(parse_doc(rest) == Some(seq![pm]));
                    }
                    acc.push(p);
                    proof {
                        assert(pairs_model(acc@) =~= accm + seq![pm]);
                    }
                    return Ok(acc);
                },
            }
        } else {
            let ghost rest2 = s@.subrange(nl as int + 1, s@.len() as int);
            proof {
                assert(rest.subrange(0, nl - pos) =~= line@);
                assert(rest.subrange(nl - pos + 1, rest.len() as int) =~= rest2);
            }
            match parse_line(line) {
                Err(_) => {
                    return Err(());
                },
                Ok(None) => {
                    proof {
                        assert(parse_doc(rest) == parse_doc(rest2));
                    }
                    pos = nl + 1;
                },
                Ok(Some(p)) => {
                    let ghost accm = pairs_model(acc@);
                    let ghost pm = (p.0@, value_model(p.1));
                    proof {
                        assert(parse_doc(rest) == (match parse_doc(rest2) {
                            None => None,
                            Some(ps) => Some(seq![pm] + ps),
                        }));
                    }
                    acc.push(p);
                    proof {
                        assert(pairs_model(acc@) =~= accm + seq![pm]);
                        if parse_doc(rest2) is Some {
                            let ps = parse_doc(rest2)->Some_0;
                            assert((accm + seq![pm]) + ps =~= accm + (seq![pm] + ps));
                        }
                    }
                    pos = nl + 1;
                },
            }
        }
    }
}

} // verus!
