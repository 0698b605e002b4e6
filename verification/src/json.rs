//! The wire shape of the secure channel's response bodies: a flat JSON
//! object, `{"key": "value", ...}`, with arbitrary whitespace around the
//! tokens, the standard escapes inside the strings, and nothing after the
//! closing brace.  Only string-valued members are kept; a member of any
//! other value type is skipped, its value scanned for balanced brackets
//! and well-formed strings but not otherwise validated, so fields a server
//! adds beyond the known ones do not break the parse.  A key that repeats
//! is taken at its first occurrence.  The spec functions below define the
//! parse; the executable parser is proved to return exactly it.

use vstd::prelude::*;

verus! {

/// A JSON whitespace character.
pub open spec fn is_json_ws(c: char) -> bool {
    c == ' ' || c == '\t' || c == '\n' || c == '\r'
}

/// The first index at or after `i` that does not hold whitespace.
pub open spec fn spec_ws_end(s: Seq<char>, i: int) -> int
    decreases s.len() - i,
{
    if i < 0 || i >= s.len() {
        i
    } else if is_json_ws(s[i]) {
        spec_ws_end(s, i + 1)
    } else {
        i
    }
}

/// The value of one hexadecimal digit.
pub open spec fn spec_hex_val(c: char) -> Option<u32> {
    let v = c as u32;
    if ('0' as u32) <= v && v <= ('9' as u32) {
        Some((v - ('0' as u32)) as u32)
    } else if ('a' as u32) <= v && v <= ('f' as u32) {
        Some((v - ('a' as u32) + 10) as u32)
    } else if ('A' as u32) <= v && v <= ('F' as u32) {
        Some((v - ('A' as u32) + 10) as u32)
    } else {
        None
    }
}

/// The value of the four hexadecimal digits at `i`.
pub open spec fn spec_hex4(s: Seq<char>, i: int) -> Option<u32> {
    if i < 0 || i + 4 > s.len() {
        None
    } else {
        match (spec_hex_val(s[i]), spec_hex_val(s[i + 1]), spec_hex_val(s[i + 2]), spec_hex_val(
            s[i + 3],
        )) {
            (Some(a), Some(b), Some(c), Some(d)) => Some(
                (a * 4096 + b * 256 + c * 16 + d) as u32,
            ),
            _ => None,
        }
    }
}

/// The escape sequence that begins right after a backslash at `i`: the
/// character it denotes and the index after the sequence.  A `\u` escape
/// carrying a high surrogate must be followed by a `\u` escape carrying a
/// low one; a lone surrogate denotes nothing.
pub open spec fn spec_escape(s: Seq<char>, i: int) -> Option<(char, int)> {
    if i < 0 || i >= s.len() {
        None
    } else {
        let c = s[i];
        if c == '"' {
            Some(('"', i + 1))
        } else if c == '\\' {
            Some(('\\', i + 1))
        } else if c == '/' {
            Some(('/', i + 1))
        } else if c == 'b' {
            Some(('\u{8}', i + 1))
        } else if c == 'f' {
            Some(('\u{c}', i + 1))
        } else if c == 'n' {
            Some(('\n', i + 1))
        } else if c == 'r' {
            Some(('\r', i + 1))
        } else if c == 't' {
            Some(('\t', i + 1))
        } else if c == 'u' {
            match spec_hex4(s, i + 1) {
                None => None,
                Some(u1) => {
                    if 0xD800 <= u1 && u1 <= 0xDBFF {
                        if i + 6 < s.len() && s[i + 5] == '\\' && s[i + 6] == 'u' {
                            match spec_hex4(s, i + 7) {
                                None => None,
                                Some(u2) => {
                                    if 0xDC00 <= u2 && u2 <= 0xDFFF {
                                        Some(
                                            (
                                                ((0x10000 + (u1 - 0xD800) * 0x400 + (u2 - 0xDC00)) as u32) as char,
                                                i + 11,
                                            ),
                                        )
                                    } else {
                                        None
                                    }
                                },
                            }
                        } else {
                            None
                        }
                    } else if 0xDC00 <= u1 && u1 <= 0xDFFF {
                        None
                    } else {
                        Some((u1 as char, i + 5))
                    }
                },
            }
        } else {
            None
        }
    }
}

/// The rest of a JSON string, starting right after its opening quote (or
/// after any already-consumed prefix): the characters it denotes and the
/// index after the closing quote.  Raw control characters never appear in
/// a JSON string.
pub open spec fn spec_str_rest(s: Seq<char>, i: int) -> Option<(Seq<char>, int)>
    decreases s.len() - i,
{
    if i < 0 || i >= s.len() {
        None
    } else {
        let c = s[i];
        if c == '"' {
            Some((Seq::empty(), i + 1))
        } else if c == '\\' {
            match spec_escape(s, i + 1) {
                None => None,
                Some((e, j)) => {
                    if j <= i + 1 || j > s.len() {
                        None
                    } else {
                        match spec_str_rest(s, j) {
                            None => None,
                            Some((t, k)) => Some((seq![e] + t, k)),
                        }
                    }
                },
            }
        } else if (c as u32) < 0x20 {
            None
        } else {
            match spec_str_rest(s, i + 1) {
                None => None,
                Some((t, k)) => Some((seq![c] + t, k)),
            }
        }
    }
}

/// The index of the `,` or `}` that ends a member value starting at `i`,
/// for a member that is skipped rather than kept: the scan passes over
/// strings and over bracket pairs, counting depth, and stops at the first
/// delimiter at depth zero.  Such a value is scanned for balance only,
/// never validated.
pub open spec fn spec_member_end(s: Seq<char>, i: int, depth: int) -> Option<int>
    decreases s.len() - i,
{
    if i < 0 || i >= s.len() || depth < 0 {
        None
    } else {
        let c = s[i];
        if depth == 0 && (c == ',' || c == '}') {
            Some(i)
        } else if c == '{' || c == '[' {
            spec_member_end(s, i + 1, depth + 1)
        } else if c == '}' || c == ']' {
            spec_member_end(s, i + 1, depth - 1)
        } else if c == '"' {
            match spec_str_rest(s, i + 1) {
                None => None,
                Some((t, j)) => {
                    if j <= i + 1 || j > s.len() {
                        None
                    } else {
                        spec_member_end(s, j, depth)
                    }
                },
            }
        } else {
            spec_member_end(s, i + 1, depth)
        }
    }
}

/// The members of a flat object, starting before the leading whitespace of
/// the first member: the key/value pairs in order and the index after the
/// closing brace.
pub open spec fn spec_members(s: Seq<char>, i: int) -> Option<(Seq<(Seq<char>, Seq<char>)>, int)>
    decreases s.len() - i,
{
    if i < 0 || i > s.len() {
        None
    } else {
        let k0 = spec_ws_end(s, i);
        if k0 >= s.len() || s[k0] != '"' {
            None
        } else {
            match spec_str_rest(s, k0 + 1) {
                None => None,
                Some((key, j1)) => {
                    let j2 = spec_ws_end(s, j1);
                    if j2 >= s.len() || s[j2] != ':' {
                        None
                    } else {
                        let j3 = spec_ws_end(s, j2 + 1);
                        if j3 >= s.len() {
                            None
                        } else if s[j3] == '"' {
                            match spec_str_rest(s, j3 + 1) {
                                None => None,
                                Some((val, j4)) => {
                                    let j5 = spec_ws_end(s, j4);
                                    if j5 >= s.len() {
                                        None
                                    } else if s[j5] == '}' {
                                        Some((seq![(key, val)], j5 + 1))
                                    } else if s[j5] == ',' {
                                        if j5 + 1 <= i {
                                            None
                                        } else {
                                            match spec_members(s, j5 + 1) {
                                                None => None,
                                                Some((rest, j6)) => Some(
                                                    (seq![(key, val)] + rest, j6),
                                                ),
                                            }
                                        }
                                    } else {
                                        None
                                    }
                                },
                            }
                        } else {
                            // a member of another value type: skipped, not kept
                            match spec_member_end(s, j3, 0) {
                                None => None,
                                Some(j5) => {
                                    if j5 <= j3 || j5 >= s.len() {
                                        None
                                    } else if s[j5] == '}' {
                                        Some((seq![], j5 + 1))
                                    } else if s[j5] == ',' {
                                        if j5 + 1 <= i {
                                            None
                                        } else {
                                            spec_members(s, j5 + 1)
                                        }
                                    } else {
                                        None
                                    }
                                },
                            }
                        }
                    }
                },
            }
        }
    }
}

/// The parse of a whole response document: a flat JSON object with string
/// values and nothing but whitespace after it, or `None` for every other
/// text.
pub open spec fn spec_object(s: Seq<char>) -> Option<Seq<(Seq<char>, Seq<char>)>> {
    let i0 = spec_ws_end(s, 0);
    if i0 >= s.len() || s[i0] != '{' {
        None
    } else {
        let i1 = spec_ws_end(s, i0 + 1);
        if i1 < s.len() && s[i1] == '}' {
            if spec_ws_end(s, i1 + 1) == s.len() {
                Some(seq![])
            } else {
                None
            }
        } else {
            match spec_members(s, i0 + 1) {
                None => None,
                Some((ps, j)) => {
                    if 0 <= j <= s.len() && spec_ws_end(s, j) == s.len() {
                        Some(ps)
                    } else {
                        None
                    }
                },
            }
        }
    }
}

/// The value of the first member with the given key.
pub open spec fn spec_lookup(ps: Seq<(Seq<char>, Seq<char>)>, key: Seq<char>) -> Option<Seq<char>>
    decreases ps.len(),
{
    if ps.len() == 0 {
        None
    } else if ps[0].0 == key {
        Some(ps[0].1)
    } else {
        spec_lookup(ps.skip(1), key)
    }
}

/// The members as mathematical pairs.
pub open spec fn pairs_view(v: Seq<(String, String)>) -> Seq<(Seq<char>, Seq<char>)> {
    Seq::new(v.len(), |i: int| (v[i].0@, v[i].1@))
}

/// Relies on String::push from std: appends exactly one character.
#[verifier::external_body]
fn push_char(s: &mut String, c: char)
    ensures
        final(s)@ == old(s)@.push(c),
{
    s.push(c);
}

/// Relies on char::from_u32 from std: `Some` exactly for Unicode scalar
/// values, and then the character with that value.
#[verifier::external_body]
fn char_from_u32(v: u32) -> (r: Option<char>)
    ensures
        (v < 0xD800 || (0xE000 <= v && v <= 0x10FFFF)) <==> r is Some,
        r matches Some(c) ==> c as u32 == v,
{
    char::from_u32(v)
}

fn char_is_ws(c: char) -> (r: bool)
    ensures
        r == is_json_ws(c),
{
    c == ' ' || c == '\t' || c == '\n' || c == '\r'
}

fn ws_end(s: &str, i: usize) -> (r: usize)
    requires
        i <= s@.len(),
    ensures
        r == spec_ws_end(s@, i as int),
        i <= r <= s@.len(),
{
    let len = s.unicode_len();
    let mut j = i;
    while j < len && char_is_ws(s.get_char(j))
        invariant
            i <= j <= len,
            len == s@.len(),
            spec_ws_end(s@, i as int) == spec_ws_end(s@, j as int),
        decreases len - j,
    {
        j = j + 1;
    }
    j
}

fn hex_val(c: char) -> (r: Option<u32>)
    ensures
        r == spec_hex_val(c),
{
    let v = c as u32;
    if 48 <= v && v <= 57 {
        Some(v - 48)
    } else if 97 <= v && v <= 102 {
        Some(v - 97 + 10)
    } else if 65 <= v && v <= 70 {
        Some(v - 65 + 10)
    } else {
        None
    }
}

fn hex4(s: &str, i: usize) -> (r: Option<u32>)
    requires
        i <= s@.len(),
    ensures
        r == spec_hex4(s@, i as int),
        r is Some ==> i + 4 <= s@.len(),
{
    let len = s.unicode_len();
    if len - i < 4 {
        return None;
    }
    let a = match hex_val(s.get_char(i)) {
        Some(v) => v,
        None => return None,
    };
    let b = match hex_val(s.get_char(i + 1)) {
        Some(v) => v,
        None => return None,
    };
    let c = match hex_val(s.get_char(i + 2)) {
        Some(v) => v,
        None => return None,
    };
    let d = match hex_val(s.get_char(i + 3)) {
        Some(v) => v,
        None => return None,
    };
    assert(a <= 15 && b <= 15 && c <= 15 && d <= 15);
    Some(a * 4096 + b * 256 + c * 16 + d)
}

fn escape(s: &str, i: usize) -> (r: Option<(char, usize)>)
    requires
        i <= s@.len(),
    ensures
        match r {
            Some(p) => spec_escape(s@, i as int) == Some((p.0, p.1 as int)) && i < p.1 <= s@.len(),
            None => spec_escape(s@, i as int) is None,
        },
{
    let len = s.unicode_len();
    if i >= len {
        return None;
    }
    let c = s.get_char(i);
    if c == '"' {
        Some(('"', i + 1))
    } else if c == '\\' {
        Some(('\\', i + 1))
    } else if c == '/' {
        Some(('/', i + 1))
    } else if c == 'b' {
        Some(('\u{8}', i + 1))
    } else if c == 'f' {
        Some(('\u{c}', i + 1))
    } else if c == 'n' {
        Some(('\n', i + 1))
    } else if c == 'r' {
        Some(('\r', i + 1))
    } else if c == 't' {
        Some(('\t', i + 1))
    } else if c == 'u' {
        let u1 = match hex4(s, i + 1) {
            Some(v) => v,
            None => return None,
        };
        if 0xD800 <= u1 && u1 <= 0xDBFF {
            if len - i > 6 && s.get_char(i + 5) == '\\' && s.get_char(i + 6) == 'u' {
                let u2 = match hex4(s, i + 7) {
                    Some(v) => v,
                    None => return None,
                };
                if 0xDC00 <= u2 && u2 <= 0xDFFF {
                    let code: u32 = 0x10000 + (u1 - 0xD800) * 0x400 + (u2 - 0xDC00);
                    let ch = match char_from_u32(code) {
                        Some(ch) => ch,
                        None => return None,
                    };
                    proof {
                        vstd::utf8::char_u32_cast(ch, code);
                    }
                    Some((ch, i + 11))
                } else {
                    None
                }
            } else {
                None
            }
        } else if 0xDC00 <= u1 && u1 <= 0xDFFF {
            None
        } else {
            let ch = match char_from_u32(u1) {
                Some(ch) => ch,
                None => return None,
            };
            proof {
                vstd::utf8::char_u32_cast(ch, u1);
            }
            Some((ch, i + 5))
        }
    } else {
        None
    }
}

/// Turns an option of a parsed tail into an option of the whole string:
/// what the parse from an earlier index returns once `pre` has been
/// consumed.
pub open spec fn spec_append_result(pre: Seq<char>, r: Option<(Seq<char>, int)>) -> Option<
    (Seq<char>, int),
> {
    match r {
        Some((t, k)) => Some((pre + t, k)),
        None => None,
    }
}

fn parse_string_rest(s: &str, i: usize) -> (r: Option<(String, usize)>)
    requires
        i <= s@.len(),
    ensures
        match r {
            Some(p) => spec_str_rest(s@, i as int) == Some((p.0@, p.1 as int)) && i < p.1
                <= s@.len(),
            None => spec_str_rest(s@, i as int) is None,
        },
{
    let len = s.unicode_len();
    let mut out = String::new();
    let mut cur = i;
    loop
        invariant
            i <= cur <= len,
            len == s@.len(),
            spec_str_rest(s@, i as int) == spec_append_result(out@, spec_str_rest(s@, cur as int)),
        decreases len - cur,
    {
        if cur == len {
            return None;
        }
        let c = s.get_char(cur);
        if c == '"' {
            proof {
                assert(out@ + Seq::<char>::empty() =~= out@);
            }
            return Some((out, cur + 1));
        } else if c == '\\' {
            let (e, j) = match escape(s, cur + 1) {
                Some(p) => p,
                None => return None,
            };
            let ghost old_out = out@;
            push_char(&mut out, e);
            proof {
                assert(out@ =~= old_out + seq![e]);
                match spec_str_rest(s@, j as int) {
                    Some(p) => {
                        assert(old_out + (seq![e] + p.0) =~= (old_out + seq![e]) + p.0);
                    },
                    None => {},
                }
            }
            cur = j;
        } else if (c as u32) < 0x20 {
            return None;
        } else {
            let ghost old_out = out@;
            push_char(&mut out, c);
            proof {
                assert(out@ =~= old_out + seq![c]);
                match spec_str_rest(s@, cur + 1) {
                    Some(p) => {
                        assert(old_out + (seq![c] + p.0) =~= (old_out + seq![c]) + p.0);
                    },
                    None => {},
                }
            }
            cur = cur + 1;
        }
    }
}

fn member_end(s: &str, i: usize) -> (r: Option<usize>)
    requires
        i <= s@.len(),
    ensures
        match r {
            Some(j) => spec_member_end(s@, i as int, 0) == Some(j as int) && i <= j < s@.len(),
            None => spec_member_end(s@, i as int, 0) is None,
        },
{
    let len = s.unicode_len();
    let mut cur = i;
    let mut depth: usize = 0;
    loop
        invariant
            i <= cur <= len,
            depth <= cur,
            len == s@.len(),
            spec_member_end(s@, i as int, 0) == spec_member_end(s@, cur as int, depth as int),
        decreases len - cur,
    {
        if cur == len {
            return None;
        }
        let c = s.get_char(cur);
        if depth == 0 && (c == ',' || c == '}') {
            return Some(cur);
        } else if c == '{' || c == '[' {
            depth = depth + 1;
            cur = cur + 1;
        } else if c == '}' || c == ']' {
            if depth == 0 {
                proof {
                    assert(spec_member_end(s@, cur + 1, -1) is None);
                }
                return None;
            }
            depth = depth - 1;
            cur = cur + 1;
        } else if c == '"' {
            match parse_string_rest(s, cur + 1) {
                Some(p) => {
                    cur = p.1;
                },
                None => {
                    return None;
                },
            }
        } else {
            cur = cur + 1;
        }
    }
}

fn parse_members(s: &str, i: usize) -> (r: Option<(Vec<(String, String)>, usize)>)
    requires
        i <= s@.len(),
    ensures
        match r {
            Some(p) => spec_members(s@, i as int) == Some((pairs_view(p.0@), p.1 as int)) && i < p.1
                <= s@.len(),
            None => spec_members(s@, i as int) is None,
        },
    decreases s@.len() - i,
{
    let len = s.unicode_len();
    let k0 = ws_end(s, i);
    if k0 >= len {
        return None;
    }
    if s.get_char(k0) != '"' {
        return None;
    }
    let (key, j1) = match parse_string_rest(s, k0 + 1) {
        Some(p) => p,
        None => return None,
    };
    let j2 = ws_end(s, j1);
    if j2 >= len {
        return None;
    }
    if s.get_char(j2) != ':' {
        return None;
    }
    let j3 = ws_end(s, j2 + 1);
    if j3 >= len {
        return None;
    }
    if s.get_char(j3) != '"' {
        // a member of another value type: skipped, scanned for balance only
        let j5 = match member_end(s, j3) {
            Some(j) => j,
            None => return None,
        };
        if j5 <= j3 {
            return None;
        }
        let c5 = s.get_char(j5);
        if c5 == '}' {
            let out: Vec<(String, String)> = Vec::new();
            proof {
                assert(pairs_view(out@) =~= Seq::<(Seq<char>, Seq<char>)>::empty());
            }
            return Some((out, j5 + 1));
        } else if c5 == ',' {
            if j5 + 1 <= i {
                return None;
            }
            return parse_members(s, j5 + 1);
        } else {
            return None;
        }
    }
    let (val, j4) = match parse_string_rest(s, j3 + 1) {
        Some(p) => p,
        None => return None,
    };
    let j5 = ws_end(s, j4);
    if j5 >= len {
        return None;
    }
    let c5 = s.get_char(j5);
    if c5 == '}' {
        let mut out: Vec<(String, String)> = Vec::new();
        let ghost gkey = key@;
        let ghost gval = val@;
        out.push((key, val));
        proof {
            assert(pairs_view(out@) =~= seq![(gkey, gval)]);
        }
        Some((out, j5 + 1))
    } else if c5 == ',' {
        if j5 + 1 <= i {
            return None;
        }
        match parse_members(s, j5 + 1) {
            Some((rest, j6)) => {
                let mut out: Vec<(String, String)> = Vec::new();
                let ghost gkey = key@;
                let ghost gval = val@;
                let ghost grest = rest@;
                out.push((key, val));
                let mut rest = rest;
                out.append(&mut rest);
                proof {
                    assert(pairs_view(out@) =~= seq![(gkey, gval)] + pairs_view(grest));
                }
                Some((out, j6))
            },
            None => None,
        }
    } else {
        None
    }
}

/// Parses a whole response document into its members, in order, or reports
/// that the text is not of the wire shape.
pub fn parse_object(s: &str) -> (r: Option<Vec<(String, String)>>)
    ensures
        r matches Some(v) ==> spec_object(s@) == Some(pairs_view(v@)),
        r is None ==> spec_object(s@) is None,
{
    let len = s.unicode_len();
    let i0 = ws_end(s, 0);
    if i0 >= len {
        return None;
    }
    if s.get_char(i0) != '{' {
        return None;
    }
    let i1 = ws_end(s, i0 + 1);
    if i1 < len && s.get_char(i1) == '}' {
        if ws_end(s, i1 + 1) == len {
            let out: Vec<(String, String)> = Vec::new();
            proof {
                assert(pairs_view(out@) =~= Seq::<(Seq<char>, Seq<char>)>::empty());
            }
            Some(out)
        } else {
            None
        }
    } else {
        match parse_members(s, i0 + 1) {
            Some((v, j)) => {
                if ws_end(s, j) == len {
                    Some(v)
                } else {
                    None
                }
            },
            None => None,
        }
    }
}

/// The value of the first member with the given key, as `spec_lookup`
/// gives it.
pub fn find_field(pairs: &Vec<(String, String)>, key: &String) -> (r: Option<String>)
    ensures
        match r {
            Some(v) => spec_lookup(pairs_view(pairs@), key@) == Some(v@),
            None => spec_lookup(pairs_view(pairs@), key@) is None,
        },
{
    let mut idx: usize = 0;
    proof {
        assert(pairs_view(pairs@).skip(0) =~= pairs_view(pairs@));
    }
    while idx < pairs.len()
        invariant
            idx <= pairs@.len(),
            spec_lookup(pairs_view(pairs@), key@) == spec_lookup(
                pairs_view(pairs@).skip(idx as int),
                key@,
            ),
        decreases pairs@.len() - idx,
    {
        let p = &pairs[idx];
        if p.0.eq(key) {
            proof {
                assert(pairs_view(pairs@).skip(idx as int)[0] == (pairs@[idx as int].0@, pairs@[
                    idx as int].1@));
            }
            return Some(p.1.clone());
        }
        proof {
            assert(pairs_view(pairs@).skip(idx as int).skip(1) =~= pairs_view(pairs@).skip(
                idx as int + 1,
            ));
        }
        idx = idx + 1;
    }
    proof {
        assert(pairs_view(pairs@).skip(pairs@.len() as int) =~= Seq::<(Seq<char>, Seq<char>)>::empty());
    }
    None
}

} // verus!
