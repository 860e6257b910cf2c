use vstd::prelude::*;

use crate::errors::SyncError;
use crate::wrappers::str_to_chars;

verus! {

// ---------------------------------------------------------------------------
// Framing: greedy brace-depth scan over a character stream.
//
// The transport gives no message boundaries, so a read may hold zero, one,
// several, or a fragment of a JSON object. The scanner finds the end of the
// first complete object by counting braces, ignoring braces that stand
// inside quoted strings (honouring backslash escapes inside strings).
// ---------------------------------------------------------------------------

/// One step of the scanner: the state is (brace depth, inside a quoted
/// string, the previous character was an unconsumed backslash escape).
pub open spec fn scan_step(depth: int, in_str: bool, esc: bool, c: char) -> (int, bool, bool) {
    if in_str {
        if esc {
            (depth, true, false)
        } else if c == '\\' {
            (depth, true, true)
        } else if c == '"' {
            (depth, false, false)
        } else {
            (depth, true, false)
        }
    } else {
        if c == '"' {
            (depth, true, false)
        } else if c == '{' {
            (depth + 1, false, false)
        } else if c == '}' {
            (depth - 1, false, false)
        } else {
            (depth, false, false)
        }
    }
}

/// Position one past the first `}` that brings the depth to zero, scanning
/// `s` from the given state; `None` if no such character exists in `s`.
pub open spec fn scan_from(s: Seq<char>, depth: int, in_str: bool, esc: bool) -> Option<int>
    decreases s.len(),
{
    if s.len() == 0 {
        None
    } else {
        let st = scan_step(depth, in_str, esc, s[0]);
        if !in_str && s[0] == '}' && st.0 == 0 {
            Some(1)
        } else {
            match scan_from(s.skip(1), st.0, st.1, st.2) {
                Some(n) => Some(1 + n),
                None => None,
            }
        }
    }
}

/// The scanner state after consuming all of `s` from the given state.
pub open spec fn scan_state(s: Seq<char>, depth: int, in_str: bool, esc: bool) -> (int, bool, bool)
    decreases s.len(),
{
    if s.len() == 0 {
        (depth, in_str, esc)
    } else {
        let st = scan_step(depth, in_str, esc, s[0]);
        scan_state(s.skip(1), st.0, st.1, st.2)
    }
}

/// Where the first complete JSON object in `s` ends: one past its closing
/// brace, or `None` if no complete object starts the buffer.
pub open spec fn spec_find_json_end(s: Seq<char>) -> Option<int> {
    scan_from(s, 0, false, false)
}

/// Scanning a concatenation: if the first part closes no object, the scan
/// carries its final state into the second part.
pub proof fn lemma_scan_concat(s1: Seq<char>, s2: Seq<char>, depth: int, in_str: bool, esc: bool)
    requires
        scan_from(s1, depth, in_str, esc) is None,
    ensures
        ({
            let st = scan_state(s1, depth, in_str, esc);
            scan_from(s1 + s2, depth, in_str, esc) == (match scan_from(s2, st.0, st.1, st.2) {
                Some(n) => Some(s1.len() + n),
                None => None::<int>,
            })
        }),
    decreases s1.len(),
{
    if s1.len() == 0 {
        assert(s1 + s2 =~= s2);
    } else {
        let st = scan_step(depth, in_str, esc, s1[0]);
        assert((s1 + s2).skip(1) =~= s1.skip(1) + s2);
        lemma_scan_concat(s1.skip(1), s2, st.0, st.1, st.2);
    }
}

/// A scan that closes an object at `n` closes nothing on a shorter prefix:
/// a truncated buffer holds no complete object.
pub proof fn lemma_scan_prefix_none(s: Seq<char>, depth: int, in_str: bool, esc: bool, k: int)
    requires
        0 <= k <= s.len(),
        match scan_from(s, depth, in_str, esc) {
            Some(n) => k < n,
            None => true,
        },
    ensures
        scan_from(s.take(k), depth, in_str, esc) is None,
    decreases s.len(),
{
    if k > 0 && s.len() > 0 {
        let st = scan_step(depth, in_str, esc, s[0]);
        assert(s.take(k)[0] == s[0]);
        assert(s.take(k).skip(1) =~= s.skip(1).take(k - 1));
        lemma_scan_prefix_none(s.skip(1), st.0, st.1, st.2, k - 1);
    }
}

/// Find where the first complete JSON object in `data` ends (one past its
/// closing brace), counting braces and ignoring those inside quoted
/// strings. `DecodeError` when no complete object starts the buffer.
pub fn find_json_end(data: &str) -> (r: Result<usize, SyncError>)
    ensures
        r matches Ok(n) ==> spec_find_json_end(data@) == Some(n as int),
        r is Err ==> spec_find_json_end(data@) is None && r == Err::<usize, SyncError>(
            SyncError::DecodeError,
        ),
{
    let chars = str_to_chars(data);
    proof {
        assert(chars@.skip(0) =~= data@);
    }
    match json_end_chars(&chars, 0) {
        Some(e) => Ok(e),
        None => Err(SyncError::DecodeError),
    }
}

/// Where the first complete JSON object in `v` from `start` on ends,
/// relative to `start`.
pub(crate) fn json_end_chars(v: &Vec<char>, start: usize) -> (r: Option<usize>)
    requires
        start <= v.len(),
    ensures
        r matches Some(e) ==> 1 <= e <= v@.len() - start && spec_find_json_end(
            v@.skip(start as int),
        ) == Some(e as int),
        r is None ==> spec_find_json_end(v@.skip(start as int)) is None,
{
    let ghost data = v@.skip(start as int);
    let n = v.len();
    let mut i: usize = start;
    let mut depth: i128 = 0;
    let mut in_str = false;
    let mut esc = false;
    proof {
        assert(v@.skip(start as int) =~= data);
    }
    while i < n
        invariant
            n == v.len(),
            data == v@.skip(start as int),
            start <= i <= n,
            -(i as int) <= depth as int <= i as int,
            spec_find_json_end(data) == (match scan_from(
                v@.skip(i as int),
                depth as int,
                in_str,
                esc,
            ) {
                Some(m) => Some((i - start) + m),
                None => None::<int>,
            }),
        decreases n - i,
    {
        let c = v[i];
        let ghost d0 = depth as int;
        let ghost s0 = in_str;
        let ghost e0 = esc;
        let ghost tail = v@.skip(i as int);
        proof {
            assert(tail.len() == n - i);
            assert(tail[0] == v@[i as int]);
            assert(tail.skip(1) =~= v@.skip(i as int + 1));
        }
        let mut closed = false;
        if in_str {
            if esc {
                esc = false;
            } else if c == '\\' {
                esc = true;
            } else if c == '"' {
                in_str = false;
            }
        } else {
            esc = false;
            if c == '"' {
                in_str = true;
            } else if c == '{' {
                depth = depth + 1;
            } else if c == '}' {
                depth = depth - 1;
                if depth == 0 {
                    closed = true;
                }
            }
        }
        proof {
            assert(scan_step(d0, s0, e0, c) == (depth as int, in_str, esc));
        }
        if closed {
            proof {
                assert(scan_from(tail, d0, s0, e0) == Some(1int));
            }
            return Some(i + 1 - start);
        }
        proof {
            assert(scan_from(tail, d0, s0, e0) == (match scan_from(
                v@.skip(i as int + 1),
                depth as int,
                in_str,
                esc,
            ) {
                Some(m) => Some(1 + m),
                None => None::<int>,
            }));
        }
        i = i + 1;
    }
    proof {
        assert(v@.skip(n as int).len() == 0);
    }
    None
}

// ---------------------------------------------------------------------------
// Encoding: one message becomes one JSON object {"data_type":K,"data":D}.
// ---------------------------------------------------------------------------

/// The lower-case hexadecimal digit for a value below sixteen.
pub open spec fn hex_digit(v: int) -> char {
    if v == 0 {
        '0'
    } else if v == 1 {
        '1'
    } else if v == 2 {
        '2'
    } else if v == 3 {
        '3'
    } else if v == 4 {
        '4'
    } else if v == 5 {
        '5'
    } else if v == 6 {
        '6'
    } else if v == 7 {
        '7'
    } else if v == 8 {
        '8'
    } else if v == 9 {
        '9'
    } else if v == 10 {
        'a'
    } else if v == 11 {
        'b'
    } else if v == 12 {
        'c'
    } else if v == 13 {
        'd'
    } else if v == 14 {
        'e'
    } else {
        'f'
    }
}

/// How one character is written inside a JSON string: quote, backslash and
/// the common control characters get two-character escapes, the remaining
/// control characters a `\u00XX` escape, and everything else stands as is.
pub open spec fn esc_char(c: char) -> Seq<char> {
    if c == '"' {
        seq!['\\', '"']
    } else if c == '\\' {
        seq!['\\', '\\']
    } else if c == '\n' {
        seq!['\\', 'n']
    } else if c == '\r' {
        seq!['\\', 'r']
    } else if c == '\t' {
        seq!['\\', 't']
    } else if (c as u32) < 0x20 {
        seq!['\\', 'u', '0', '0', hex_digit((c as u32) as int / 16), hex_digit((c as u32) as int % 16)]
    } else {
        seq![c]
    }
}

/// A payload string as written inside its JSON quotes.
pub open spec fn escape_str(s: Seq<char>) -> Seq<char>
    decreases s.len(),
{
    if s.len() == 0 {
        Seq::empty()
    } else {
        esc_char(s[0]) + escape_str(s.skip(1))
    }
}

pub proof fn lemma_escape_push(a: Seq<char>, c: char)
    ensures
        escape_str(a.push(c)) == escape_str(a) + esc_char(c),
    decreases a.len(),
{
    if a.len() == 0 {
        assert(a.push(c)[0] == c);
        assert(a.push(c).skip(1) =~= Seq::<char>::empty());
        assert(escape_str(a.push(c)) == esc_char(c) + escape_str(Seq::<char>::empty()));
        assert(escape_str(Seq::<char>::empty()) == Seq::<char>::empty());
        assert(esc_char(c) + Seq::<char>::empty() =~= esc_char(c));
        assert(escape_str(a) == Seq::<char>::empty());
        assert(escape_str(a) + esc_char(c) =~= esc_char(c));
    } else {
        assert(a.push(c)[0] == a[0]);
        assert(a.push(c).skip(1) =~= a.skip(1).push(c));
        lemma_escape_push(a.skip(1), c);
        assert(escape_str(a.push(c)) == esc_char(a[0]) + (escape_str(a.skip(1)) + esc_char(c)));
        assert(esc_char(a[0]) + (escape_str(a.skip(1)) + esc_char(c)) =~= (esc_char(a[0])
            + escape_str(a.skip(1))) + esc_char(c));
    }
}

/// The wire name of a message kind.
pub open spec fn kind_name(k: crate::tcp::TcpDataType) -> Seq<char> {
    match k {
        crate::tcp::TcpDataType::Text => seq!['T', 'e', 'x', 't'],
        crate::tcp::TcpDataType::Blob => seq!['B', 'l', 'o', 'b'],
        crate::tcp::TcpDataType::Image => seq!['I', 'm', 'a', 'g', 'e'],
        crate::tcp::TcpDataType::Command => seq!['C', 'o', 'm', 'm', 'a', 'n', 'd'],
    }
}

/// The opening of the JSON envelope, through the quote that starts the kind
/// name: `{"data_type":"`.
pub open spec fn lit_open() -> Seq<char> {
    seq!['{', '"', 'd', 'a', 't', 'a', '_', 't', 'y', 'p', 'e', '"', ':', '"']
}

/// The middle of the JSON envelope, from the quote that closes the kind
/// name through the quote that starts the payload: `","data":"`.
pub open spec fn lit_mid() -> Seq<char> {
    seq!['"', ',', '"', 'd', 'a', 't', 'a', '"', ':', '"']
}

/// The close of the JSON envelope: the quote that ends the payload and the
/// closing brace.
pub open spec fn lit_close() -> Seq<char> {
    seq!['"', '}']
}

/// The full wire text of one message.
pub open spec fn spec_encode(k: crate::tcp::TcpDataType, d: Seq<char>) -> Seq<char> {
    lit_open() + kind_name(k) + lit_mid() + escape_str(d) + lit_close()
}

fn push_esc_char(out: &mut Vec<char>, c: char)
    ensures
        final(out)@ == old(out)@ + esc_char(c),
{
    if c == '"' {
        out.push('\\');
        out.push('"');
    } else if c == '\\' {
        out.push('\\');
        out.push('\\');
    } else if c == '\n' {
        out.push('\\');
        out.push('n');
    } else if c == '\r' {
        out.push('\\');
        out.push('r');
    } else if c == '\t' {
        out.push('\\');
        out.push('t');
    } else if (c as u32) < 0x20 {
        let v = c as u32;
        out.push('\\');
        out.push('u');
        out.push('0');
        out.push('0');
        out.push(hex_digit_exec(v / 16));
        out.push(hex_digit_exec(v % 16));
    } else {
        out.push(c);
    }
    proof {
        assert(out@ =~= old(out)@ + esc_char(c));
    }
}

fn hex_digit_exec(v: u32) -> (r: char)
    requires
        v < 16,
    ensures
        r == hex_digit(v as int),
{
    if v == 0 {
        '0'
    } else if v == 1 {
        '1'
    } else if v == 2 {
        '2'
    } else if v == 3 {
        '3'
    } else if v == 4 {
        '4'
    } else if v == 5 {
        '5'
    } else if v == 6 {
        '6'
    } else if v == 7 {
        '7'
    } else if v == 8 {
        '8'
    } else if v == 9 {
        '9'
    } else if v == 10 {
        'a'
    } else if v == 11 {
        'b'
    } else if v == 12 {
        'c'
    } else if v == 13 {
        'd'
    } else if v == 14 {
        'e'
    } else {
        'f'
    }
}

fn push_escaped(out: &mut Vec<char>, s: &str)
    ensures
        final(out)@ == old(out)@ + escape_str(s@),
{
    let chars = str_to_chars(s);
    let n = chars.len();
    let mut i: usize = 0;
    proof {
        assert(s@.take(0) =~= Seq::<char>::empty());
        assert(out@ =~= out@ + escape_str(s@.take(0)));
    }
    while i < n
        invariant
            n == chars.len(),
            chars@ == s@,
            0 <= i <= n,
            out@ == old(out)@ + escape_str(s@.take(i as int)),
        decreases n - i,
    {
        let c = chars[i];
        push_esc_char(out, c);
        proof {
            assert(s@.take(i as int).push(c) =~= s@.take(i as int + 1));
            lemma_escape_push(s@.take(i as int), c);
            assert((old(out)@ + escape_str(s@.take(i as int))) + esc_char(c) =~= old(out)@
                + escape_str(s@.take(i as int + 1)));
        }
        i = i + 1;
    }
    proof {
        assert(s@.take(n as int) =~= s@);
    }
}

fn push_kind_name(out: &mut Vec<char>, k: crate::tcp::TcpDataType)
    ensures
        final(out)@ == old(out)@ + kind_name(k),
{
    match k {
        crate::tcp::TcpDataType::Text => {
            out.push('T');
            out.push('e');
            out.push('x');
            out.push('t');
        },
        crate::tcp::TcpDataType::Blob => {
            out.push('B');
            out.push('l');
            out.push('o');
            out.push('b');
        },
        crate::tcp::TcpDataType::Image => {
            out.push('I');
            out.push('m');
            out.push('a');
            out.push('g');
            out.push('e');
        },
        crate::tcp::TcpDataType::Command => {
            out.push('C');
            out.push('o');
            out.push('m');
            out.push('m');
            out.push('a');
            out.push('n');
            out.push('d');
        },
    }
    proof {
        assert(out@ =~= old(out)@ + kind_name(k));
    }
}

/// The wire text of one message, as a vector of characters.
pub(crate) fn encode_tcp_data_chars(data: &crate::tcp::TcpData) -> (r: Vec<char>)
    ensures
        r@ == spec_encode(data@.data_type, data@.data),
{
    let mut out: Vec<char> = Vec::new();
    out.push('{');
    out.push('"');
    out.push('d');
    out.push('a');
    out.push('t');
    out.push('a');
    out.push('_');
    out.push('t');
    out.push('y');
    out.push('p');
    out.push('e');
    out.push('"');
    out.push(':');
    out.push('"');
    proof {
        assert(out@ =~= lit_open());
    }
    push_kind_name(&mut out, data.data_type);
    out.push('"');
    out.push(',');
    out.push('"');
    out.push('d');
    out.push('a');
    out.push('t');
    out.push('a');
    out.push('"');
    out.push(':');
    out.push('"');
    proof {
        assert(out@ =~= lit_open() + kind_name(data.data_type) + lit_mid());
    }
    push_escaped(&mut out, data.data.as_str());
    out.push('"');
    out.push('}');
    proof {
        assert(out@ =~= spec_encode(data@.data_type, data@.data));
    }
    out
}

// ---------------------------------------------------------------------------
// Parsing: one JSON envelope back into a kind tag and a payload string.
// ---------------------------------------------------------------------------

/// JSON whitespace.
pub open spec fn is_ws(c: char) -> bool {
    c == ' ' || c == '\n' || c == '\r' || c == '\t'
}

/// The number of whitespace characters that open `s`.
pub open spec fn ws_count(s: Seq<char>) -> int
    decreases s.len(),
{
    if s.len() > 0 && is_ws(s[0]) {
        1 + ws_count(s.skip(1))
    } else {
        0
    }
}

pub proof fn lemma_ws_count_bound(s: Seq<char>)
    ensures
        0 <= ws_count(s) <= s.len(),
    decreases s.len(),
{
    if s.len() > 0 && is_ws(s[0]) {
        lemma_ws_count_bound(s.skip(1));
    }
}

pub open spec fn starts_with(s: Seq<char>, p: Seq<char>) -> bool {
    p.len() <= s.len() && s.take(p.len() as int) == p
}

/// The value of one hexadecimal digit, either case.
pub open spec fn hex_val(c: char) -> Option<int> {
    if c == '0' {
        Some(0)
    } else if c == '1' {
        Some(1)
    } else if c == '2' {
        Some(2)
    } else if c == '3' {
        Some(3)
    } else if c == '4' {
        Some(4)
    } else if c == '5' {
        Some(5)
    } else if c == '6' {
        Some(6)
    } else if c == '7' {
        Some(7)
    } else if c == '8' {
        Some(8)
    } else if c == '9' {
        Some(9)
    } else if c == 'a' || c == 'A' {
        Some(10)
    } else if c == 'b' || c == 'B' {
        Some(11)
    } else if c == 'c' || c == 'C' {
        Some(12)
    } else if c == 'd' || c == 'D' {
        Some(13)
    } else if c == 'e' || c == 'E' {
        Some(14)
    } else if c == 'f' || c == 'F' {
        Some(15)
    } else {
        None
    }
}

/// What a two-character escape `\c` stands for, when `c` is one of the
/// simple escape letters.
pub open spec fn simple_unescape(c: char) -> Option<char> {
    if c == '"' {
        Some('"')
    } else if c == '\\' {
        Some('\\')
    } else if c == '/' {
        Some('/')
    } else if c == 'n' {
        Some('\n')
    } else if c == 'r' {
        Some('\r')
    } else if c == 't' {
        Some('\t')
    } else if c == 'b' {
        Some('\u{0008}')
    } else if c == 'f' {
        Some('\u{000C}')
    } else {
        None
    }
}

/// Parse the body of a JSON string, starting just after its opening quote:
/// the characters it denotes, and the count of input characters consumed,
/// the closing quote included. Escapes are honoured (`\uXXXX` only in its
/// `\u00XX` form); a bare control character or an unterminated body is a
/// parse failure.
pub open spec fn parse_str_body(s: Seq<char>) -> Option<(Seq<char>, int)>
    decreases s.len(),
{
    if s.len() == 0 {
        None
    } else if s[0] == '"' {
        Some((Seq::empty(), 1))
    } else if s[0] == '\\' {
        if s.len() < 2 {
            None
        } else if s[1] == 'u' {
            if s.len() < 6 {
                None
            } else if s[2] == '0' && s[3] == '0' {
                match (hex_val(s[4]), hex_val(s[5])) {
                    (Some(h), Some(l)) => {
                        match parse_str_body(s.skip(6)) {
                            Some(t) => Some(
                                (seq![(((h * 16 + l) as u8) as char)] + t.0, 6 + t.1),
                            ),
                            None => None,
                        }
                    },
                    _ => None,
                }
            } else {
                None
            }
        } else {
            match simple_unescape(s[1]) {
                Some(c) => match parse_str_body(s.skip(2)) {
                    Some(t) => Some((seq![c] + t.0, 2 + t.1)),
                    None => None,
                },
                None => None,
            }
        }
    } else if (s[0] as u32) < 0x20 {
        None
    } else {
        match parse_str_body(s.skip(1)) {
            Some(t) => Some((seq![s[0]] + t.0, 1 + t.1)),
            None => None,
        }
    }
}

fn hex_val_exec(c: char) -> (r: Option<u8>)
    ensures
        match r {
            Some(h) => hex_val(c) == Some(h as int) && h < 16,
            None => hex_val(c) is None,
        },
{
    if c == '0' {
        Some(0)
    } else if c == '1' {
        Some(1)
    } else if c == '2' {
        Some(2)
    } else if c == '3' {
        Some(3)
    } else if c == '4' {
        Some(4)
    } else if c == '5' {
        Some(5)
    } else if c == '6' {
        Some(6)
    } else if c == '7' {
        Some(7)
    } else if c == '8' {
        Some(8)
    } else if c == '9' {
        Some(9)
    } else if c == 'a' || c == 'A' {
        Some(10)
    } else if c == 'b' || c == 'B' {
        Some(11)
    } else if c == 'c' || c == 'C' {
        Some(12)
    } else if c == 'd' || c == 'D' {
        Some(13)
    } else if c == 'e' || c == 'E' {
        Some(14)
    } else if c == 'f' || c == 'F' {
        Some(15)
    } else {
        None
    }
}

/// Parse a JSON string body inside `v` starting at `start` (just after the
/// opening quote), returning the denoted characters and the position just
/// after the closing quote.
fn p_str_body(v: &Vec<char>, start: usize) -> (r: Option<(Vec<char>, usize)>)
    requires
        start <= v.len(),
    ensures
        match r {
            Some(p) => start < p.1 && p.1 <= v@.len() && parse_str_body(v@.skip(start as int))
                == Some((p.0@, p.1 - start as int)),
            None => parse_str_body(v@.skip(start as int)) is None,
        },
{
    let mut i: usize = start;
    let mut out: Vec<char> = Vec::new();
    proof {
        assert(out@ + Seq::<char>::empty() =~= Seq::<char>::empty());
    }
    loop
        invariant
            start <= i <= v.len(),
            parse_str_body(v@.skip(start as int)) == (match parse_str_body(v@.skip(i as int)) {
                Some(t) => Some((out@ + t.0, (i - start) + t.1)),
                None => None::<(Seq<char>, int)>,
            }),
        decreases v.len() - i,
    {
        let ghost s = v@.skip(i as int);
        proof {
            assert(s.len() == v@.len() - i);
        }
        if i >= v.len() {
            return None;
        }
        let c = v[i];
        proof {
            assert(s[0] == v@[i as int]);
        }
        if c == '"' {
            proof {
                assert(parse_str_body(s) == Some((Seq::<char>::empty(), 1int)));
                assert(out@ + Seq::<char>::empty() =~= out@);
            }
            return Some((out, i + 1));
        } else if c == '\\' {
            if i + 1 >= v.len() {
                return None;
            }
            let e = v[i + 1];
            proof {
                assert(s[1] == v@[i as int + 1]);
            }
            if e == 'u' {
                if v.len() - i < 6 {
                    return None;
                }
                let c2 = v[i + 2];
                let c3 = v[i + 3];
                let c4 = v[i + 4];
                let c5 = v[i + 5];
                proof {
                    assert(s[2] == v@[i as int + 2]);
                    assert(s[3] == v@[i as int + 3]);
                    assert(s[4] == v@[i as int + 4]);
                    assert(s[5] == v@[i as int + 5]);
                }
                if !(c2 == '0' && c3 == '0') {
                    return None;
                }
                let h = match hex_val_exec(c4) {
                    Some(h) => h,
                    None => {
                        return None;
                    },
                };
                let l = match hex_val_exec(c5) {
                    Some(l) => l,
                    None => {
                        return None;
                    },
                };
                let ch = (h * 16 + l) as char;
                let ghost out0 = out@;
                out.push(ch);
                proof {
                    assert(s.skip(6) =~= v@.skip(i as int + 6));
                    assert(out0 + (seq![ch] + parse_str_body(s.skip(6))->Some_0.0) =~= (out0
                        + seq![ch]) + parse_str_body(s.skip(6))->Some_0.0);
                    assert(out0 + seq![ch] =~= out0.push(ch));
                }
                i = i + 6;
            } else {
                let ch: char;
                if e == '"' {
                    ch = '"';
                } else if e == '\\' {
                    ch = '\\';
                } else if e == '/' {
                    ch = '/';
                } else if e == 'n' {
                    ch = '\n';
                } else if e == 'r' {
                    ch = '\r';
                } else if e == 't' {
                    ch = '\t';
                } else if e == 'b' {
                    ch = '\u{0008}';
                } else if e == 'f' {
                    ch = '\u{000C}';
                } else {
                    return None;
                }
                let ghost out0 = out@;
                out.push(ch);
                proof {
                    assert(simple_unescape(s[1]) == Some(ch));
                    assert(s.skip(2) =~= v@.skip(i as int + 2));
                    assert(out0 + (seq![ch] + parse_str_body(s.skip(2))->Some_0.0) =~= (out0
                        + seq![ch]) + parse_str_body(s.skip(2))->Some_0.0);
                    assert(out0 + seq![ch] =~= out0.push(ch));
                }
                i = i + 2;
            }
        } else if (c as u32) < 0x20 {
            return None;
        } else {
            let ghost out0 = out@;
            out.push(c);
            proof {
                assert(s.skip(1) =~= v@.skip(i as int + 1));
                assert(out0 + (seq![c] + parse_str_body(s.skip(1))->Some_0.0) =~= (out0 + seq![c])
                    + parse_str_body(s.skip(1))->Some_0.0);
                assert(out0 + seq![c] =~= out0.push(c));
            }
            i = i + 1;
        }
    }
}

/// The object key `"data_type"`, quotes included.
pub open spec fn lit_dt() -> Seq<char> {
    seq!['"', 'd', 'a', 't', 'a', '_', 't', 'y', 'p', 'e', '"']
}

/// The object key `"data"`, quotes included.
pub open spec fn lit_data() -> Seq<char> {
    seq!['"', 'd', 'a', 't', 'a', '"']
}

/// Parse a kind name and its closing quote, starting just after the
/// opening quote: the kind, and the count of characters consumed.
pub open spec fn parse_kind(s: Seq<char>) -> Option<(crate::tcp::TcpDataType, int)> {
    if starts_with(s, kind_name(crate::tcp::TcpDataType::Text) + seq!['"']) {
        Some((crate::tcp::TcpDataType::Text, 5))
    } else if starts_with(s, kind_name(crate::tcp::TcpDataType::Blob) + seq!['"']) {
        Some((crate::tcp::TcpDataType::Blob, 5))
    } else if starts_with(s, kind_name(crate::tcp::TcpDataType::Image) + seq!['"']) {
        Some((crate::tcp::TcpDataType::Image, 6))
    } else if starts_with(s, kind_name(crate::tcp::TcpDataType::Command) + seq!['"']) {
        Some((crate::tcp::TcpDataType::Command, 8))
    } else {
        None
    }
}

/// Parse one JSON envelope `{"data_type":K,"data":D}` from the start of
/// `s` (whitespace between tokens allowed): the kind, the payload
/// characters, and the position one past the closing brace.
pub open spec fn parse_object(s: Seq<char>) -> Option<(crate::tcp::TcpDataType, Seq<char>, int)> {
    let a0 = ws_count(s);
    if !(a0 < s.len() && s[a0] == '{') {
        None
    } else {
        let a1 = a0 + 1 + ws_count(s.skip(a0 + 1));
        if !starts_with(s.skip(a1), lit_dt()) {
            None
        } else {
            let a2 = a1 + 11 + ws_count(s.skip(a1 + 11));
            if !(a2 < s.len() && s[a2] == ':') {
                None
            } else {
                let a3 = a2 + 1 + ws_count(s.skip(a2 + 1));
                if !(a3 < s.len() && s[a3] == '"') {
                    None
                } else {
                    match parse_kind(s.skip(a3 + 1)) {
                        None => None,
                        Some(k) => {
                            let a4 = a3 + 1 + k.1 + ws_count(s.skip(a3 + 1 + k.1));
                            if !(a4 < s.len() && s[a4] == ',') {
                                None
                            } else {
                                let a5 = a4 + 1 + ws_count(s.skip(a4 + 1));
                                if !starts_with(s.skip(a5), lit_data()) {
                                    None
                                } else {
                                    let a6 = a5 + 6 + ws_count(s.skip(a5 + 6));
                                    if !(a6 < s.len() && s[a6] == ':') {
                                        None
                                    } else {
                                        let a7 = a6 + 1 + ws_count(s.skip(a6 + 1));
                                        if !(a7 < s.len() && s[a7] == '"') {
                                            None
                                        } else {
                                            match parse_str_body(s.skip(a7 + 1)) {
                                                None => None,
                                                Some(d) => {
                                                    let a8 = a7 + 1 + d.1 + ws_count(
                                                        s.skip(a7 + 1 + d.1),
                                                    );
                                                    if a8 < s.len() && s[a8] == '}' {
                                                        Some((k.0, d.0, a8 + 1))
                                                    } else {
                                                        None
                                                    }
                                                },
                                            }
                                        }
                                    }
                                }
                            }
                        },
                    }
                }
            }
        }
    }
}

fn is_ws_char(c: char) -> (r: bool)
    ensures
        r == is_ws(c),
{
    c == ' ' || c == '\n' || c == '\r' || c == '\t'
}

/// The position of the first non-whitespace character at or after `start`.
fn ws_skip(v: &Vec<char>, start: usize) -> (r: usize)
    requires
        start <= v.len(),
    ensures
        start <= r <= v.len(),
        r == start + ws_count(v@.skip(start as int)),
{
    let mut i: usize = start;
    while i < v.len() && is_ws_char(v[i])
        invariant
            start <= i <= v.len(),
            ws_count(v@.skip(start as int)) == (i - start) + ws_count(v@.skip(i as int)),
        decreases v.len() - i,
    {
        proof {
            assert(v@.skip(i as int)[0] == v@[i as int]);
            assert(v@.skip(i as int).skip(1) =~= v@.skip(i as int + 1));
            lemma_ws_count_bound(v@.skip(i as int + 1));
        }
        i = i + 1;
    }
    proof {
        if i < v.len() {
            assert(v@.skip(i as int)[0] == v@[i as int]);
        }
        assert(ws_count(v@.skip(i as int)) == 0);
        lemma_ws_count_bound(v@.skip(start as int));
    }
    i
}

/// Whether `"data_type"` stands at `at`.
fn match_lit_dt(v: &Vec<char>, at: usize) -> (r: bool)
    requires
        at <= v.len(),
    ensures
        r == starts_with(v@.skip(at as int), lit_dt()),
{
    let ghost s = v@.skip(at as int);
    if v.len() - at < 11 {
        return false;
    }
    proof {
        assert forall|j: int| 0 <= j < 11 implies s.take(11)[j] == v@[at + j] by {
            assert(s.take(11)[j] == s[j]);
        }
    }
    let r = v[at] == '"' && v[at + 1] == 'd' && v[at + 2] == 'a' && v[at + 3] == 't' && v[at + 4]
        == 'a' && v[at + 5] == '_' && v[at + 6] == 't' && v[at + 7] == 'y' && v[at + 8] == 'p'
        && v[at + 9] == 'e' && v[at + 10] == '"';
    proof {
        if r {
            assert(s.take(11) =~= lit_dt());
        } else {
            if s.take(11) == lit_dt() {
                assert(v@[at as int] == lit_dt()[0]);
                assert(v@[at + 1] == lit_dt()[1]);
                assert(v@[at + 2] == lit_dt()[2]);
                assert(v@[at + 3] == lit_dt()[3]);
                assert(v@[at + 4] == lit_dt()[4]);
                assert(v@[at + 5] == lit_dt()[5]);
                assert(v@[at + 6] == lit_dt()[6]);
                assert(v@[at + 7] == lit_dt()[7]);
                assert(v@[at + 8] == lit_dt()[8]);
                assert(v@[at + 9] == lit_dt()[9]);
                assert(v@[at + 10] == lit_dt()[10]);
            }
        }
    }
    r
}

/// Whether `"data"` stands at `at`.
fn match_lit_data(v: &Vec<char>, at: usize) -> (r: bool)
    requires
        at <= v.len(),
    ensures
        r == starts_with(v@.skip(at as int), lit_data()),
{
    let ghost s = v@.skip(at as int);
    if v.len() - at < 6 {
        return false;
    }
    proof {
        assert forall|j: int| 0 <= j < 6 implies s.take(6)[j] == v@[at + j] by {
            assert(s.take(6)[j] == s[j]);
        }
    }
    let r = v[at] == '"' && v[at + 1] == 'd' && v[at + 2] == 'a' && v[at + 3] == 't' && v[at + 4]
        == 'a' && v[at + 5] == '"';
    proof {
        if r {
            assert(s.take(6) =~= lit_data());
        } else {
            if s.take(6) == lit_data() {
                assert(v@[at as int] == lit_data()[0]);
                assert(v@[at + 1] == lit_data()[1]);
                assert(v@[at + 2] == lit_data()[2]);
                assert(v@[at + 3] == lit_data()[3]);
                assert(v@[at + 4] == lit_data()[4]);
                assert(v@[at + 5] == lit_data()[5]);
            }
        }
    }
    r
}

/// Whether the given kind name and its closing quote stand at `at`.
fn match_kind_at(v: &Vec<char>, at: usize, k: crate::tcp::TcpDataType) -> (r: bool)
    requires
        at <= v.len(),
    ensures
        r == starts_with(v@.skip(at as int), kind_name(k) + seq!['"']),
{
    let ghost s = v@.skip(at as int);
    let ghost pat = kind_name(k) + seq!['"'];
    let (m, b) = match k {
        crate::tcp::TcpDataType::Text => {
            if v.len() - at < 5 {
                (5usize, false)
            } else {
                (
                    5usize,
                    v[at] == 'T' && v[at + 1] == 'e' && v[at + 2] == 'x' && v[at + 3] == 't' && v[at
                        + 4] == '"',
                )
            }
        },
        crate::tcp::TcpDataType::Blob => {
            if v.len() - at < 5 {
                (5usize, false)
            } else {
                (
                    5usize,
                    v[at] == 'B' && v[at + 1] == 'l' && v[at + 2] == 'o' && v[at + 3] == 'b' && v[at
                        + 4] == '"',
                )
            }
        },
        crate::tcp::TcpDataType::Image => {
            if v.len() - at < 6 {
                (6usize, false)
            } else {
                (
                    6usize,
                    v[at] == 'I' && v[at + 1] == 'm' && v[at + 2] == 'a' && v[at + 3] == 'g' && v[at
                        + 4] == 'e' && v[at + 5] == '"',
                )
            }
        },
        crate::tcp::TcpDataType::Command => {
            if v.len() - at < 8 {
                (8usize, false)
            } else {
                (
                    8usize,
                    v[at] == 'C' && v[at + 1] == 'o' && v[at + 2] == 'm' && v[at + 3] == 'm' && v[at
                        + 4] == 'a' && v[at + 5] == 'n' && v[at + 6] == 'd' && v[at + 7] == '"',
                )
            }
        },
    };
    proof {
        assert(pat.len() == m);
        if v.len() - at < m {
            assert(!starts_with(s, pat));
        } else {
            assert forall|j: int| 0 <= j < m implies s.take(m as int)[j] == v@[at + j] by {
                assert(s.take(m as int)[j] == s[j]);
            }
            if b {
                assert(s.take(m as int) =~= pat);
            } else {
                if s.take(m as int) == pat {
                    assert forall|j: int| 0 <= j < m implies v@[at + j] == pat[j] by {
                        assert(s.take(m as int)[j] == pat[j]);
                    }
                    assert(v@[at as int] == pat[0]);
                    assert(v@[at + 1] == pat[1]);
                    assert(v@[at + 2] == pat[2]);
                    assert(v@[at + 3] == pat[3]);
                    assert(v@[at + 4] == pat[4]);
                    if m >= 6 {
                        assert(v@[at + 5] == pat[5]);
                    }
                    if m >= 8 {
                        assert(v@[at + 6] == pat[6]);
                        assert(v@[at + 7] == pat[7]);
                    }
                }
            }
        }
    }
    b
}

/// Parse a kind name and its closing quote at `start`; on success the
/// returned position is absolute.
fn p_kind(v: &Vec<char>, start: usize) -> (r: Option<(crate::tcp::TcpDataType, usize)>)
    requires
        start <= v.len(),
    ensures
        match r {
            Some(p) => start < p.1 && p.1 <= v@.len() && parse_kind(v@.skip(start as int)) == Some(
                (p.0, p.1 - start as int),
            ),
            None => parse_kind(v@.skip(start as int)) is None,
        },
{
    if match_kind_at(v, start, crate::tcp::TcpDataType::Text) {
        Some((crate::tcp::TcpDataType::Text, start + 5))
    } else if match_kind_at(v, start, crate::tcp::TcpDataType::Blob) {
        Some((crate::tcp::TcpDataType::Blob, start + 5))
    } else if match_kind_at(v, start, crate::tcp::TcpDataType::Image) {
        Some((crate::tcp::TcpDataType::Image, start + 6))
    } else if match_kind_at(v, start, crate::tcp::TcpDataType::Command) {
        Some((crate::tcp::TcpDataType::Command, start + 8))
    } else {
        None
    }
}

/// Parse one JSON envelope from the start of `v`: the kind, the payload
/// characters, and the position one past the closing brace.
#[verifier::rlimit(50)]
pub(crate) fn p_object(v: &Vec<char>) -> (r: Option<(crate::tcp::TcpDataType, Vec<char>, usize)>)
    ensures
        match r {
            Some(p) => parse_object(v@) == Some((p.0, p.1@, p.2 as int)) && p.2 <= v@.len(),
            None => parse_object(v@) is None,
        },
{
    let ghost s = v@;
    let n = v.len();
    proof {
        assert(v@.skip(0) =~= s);
    }
    let a0 = ws_skip(v, 0);
    if !(a0 < n) {
        return None;
    }
    if !(v[a0] == '{') {
        return None;
    }
    let w1 = ws_skip(v, a0 + 1);
    proof {
        assert(w1 == a0 + 1 + ws_count(s.skip(a0 + 1)));
    }
    if !match_lit_dt(v, w1) {
        return None;
    }
    proof {
        assert(starts_with(s.skip(w1 as int), lit_dt()));
        assert(lit_dt().len() == 11);
    }
    let a2 = ws_skip(v, w1 + 11);
    if !(a2 < n) {
        return None;
    }
    if !(v[a2] == ':') {
        return None;
    }
    let a3 = ws_skip(v, a2 + 1);
    if !(a3 < n) {
        return None;
    }
    if !(v[a3] == '"') {
        return None;
    }
    let kind_res = p_kind(v, a3 + 1);
    let (kind, after_kind) = match kind_res {
        Some(p) => p,
        None => {
            return None;
        },
    };
    let a4 = ws_skip(v, after_kind);
    if !(a4 < n) {
        return None;
    }
    if !(v[a4] == ',') {
        return None;
    }
    let a5 = ws_skip(v, a4 + 1);
    if !match_lit_data(v, a5) {
        return None;
    }
    proof {
        assert(starts_with(s.skip(a5 as int), lit_data()));
        assert(lit_data().len() == 6);
    }
    let a6 = ws_skip(v, a5 + 6);
    if !(a6 < n) {
        return None;
    }
    if !(v[a6] == ':') {
        return None;
    }
    let a7 = ws_skip(v, a6 + 1);
    if !(a7 < n) {
        return None;
    }
    if !(v[a7] == '"') {
        return None;
    }
    let body_res = p_str_body(v, a7 + 1);
    let (body, after_body) = match body_res {
        Some(p) => p,
        None => {
            return None;
        },
    };
    let a8 = ws_skip(v, after_body);
    if !(a8 < n) {
        return None;
    }
    if !(v[a8] == '}') {
        return None;
    }
    Some((kind, body, a8 + 1))
}

// ---------------------------------------------------------------------------
// The image payload: a 10-character width and a 10-character height, each
// decimal and space-padded on the right, followed by base64 pixel bytes.
// ---------------------------------------------------------------------------

/// The decimal digits of a non-negative number, most significant first.
pub open spec fn dec_digits(n: int) -> Seq<char>
    decreases n,
{
    if n < 10 {
        seq![hex_digit(n)]
    } else {
        dec_digits(n / 10) + seq![hex_digit(n % 10)]
    }
}

/// `k` spaces.
pub open spec fn spaces(k: int) -> Seq<char> {
    Seq::new(k as nat, |i: int| ' ')
}

/// A number in the 10-character field: its digits, space-padded on the
/// right.
pub open spec fn pad10(n: u32) -> Seq<char> {
    dec_digits(n as int) + spaces(10 - dec_digits(n as int).len())
}

pub open spec fn pow10(k: nat) -> int
    decreases k,
{
    if k == 0 {
        1
    } else {
        10 * pow10((k - 1) as nat)
    }
}

pub proof fn lemma_dec_digits_len(n: int, k: nat)
    requires
        0 <= n < pow10(k),
        1 <= k,
    ensures
        1 <= dec_digits(n).len() <= k,
    decreases k,
{
    if n < 10 {
    } else {
        assert(pow10(k) == 10 * pow10((k - 1) as nat));
        assert(k >= 2) by {
            if k == 1 {
                assert(pow10(1nat) == 10);
            }
        }
        assert(n / 10 < pow10((k - 1) as nat)) by (nonlinear_arith)
            requires
                n < 10 * pow10((k - 1) as nat),
                n >= 10,
        ;
        lemma_dec_digits_len(n / 10, (k - 1) as nat);
    }
}

/// Every `u32` fits the 10-character field.
pub proof fn lemma_dec_digits_len_u32(n: u32)
    ensures
        1 <= dec_digits(n as int).len() <= 10,
        pad10(n).len() == 10,
{
    reveal_with_fuel(pow10, 11);
    assert(pow10(10nat) == 10000000000);
    lemma_dec_digits_len(n as int, 10nat);
}

/// Whether `c` is a decimal digit, and its value.
pub open spec fn digit_val(c: char) -> Option<int> {
    match hex_val(c) {
        Some(v) => if v < 10 {
            Some(v)
        } else {
            None
        },
        None => None,
    }
}

pub open spec fn all_digits(s: Seq<char>) -> bool {
    forall|i: int| 0 <= i < s.len() ==> #[trigger] digit_val(s[i]) is Some
}

/// The value of a digit string, most significant digit first.
pub open spec fn dec_val(s: Seq<char>) -> int
    decreases s.len(),
{
    if s.len() == 0 {
        0
    } else {
        10 * dec_val(s.drop_last()) + (match digit_val(s.last()) {
            Some(v) => v,
            None => 0,
        })
    }
}

pub proof fn lemma_dec_val_of_digits(n: int)
    requires
        0 <= n,
    ensures
        dec_val(dec_digits(n)) == n,
        all_digits(dec_digits(n)),
        dec_digits(n)[0] != ' ',
        dec_digits(n).last() != ' ',
    decreases n,
{
    if n < 10 {
        let d = dec_digits(n);
        assert(d.len() == 1);
        assert(d.last() == hex_digit(n));
        assert(d.drop_last() =~= Seq::<char>::empty());
        assert(digit_val(hex_digit(n)) == Some(n));
        assert(dec_val(Seq::<char>::empty()) == 0);
        assert(dec_val(d) == 10 * dec_val(d.drop_last()) + n);
        assert(dec_val(d) == n);
        assert(forall|i: int| 0 <= i < d.len() ==> #[trigger] digit_val(d[i]) is Some);
    } else {
        lemma_dec_val_of_digits(n / 10);
        let p = dec_digits(n / 10);
        let d = dec_digits(n);
        assert(d == p + seq![hex_digit(n % 10)]);
        assert(d.last() == hex_digit(n % 10));
        assert(d.drop_last() =~= p);
        assert(digit_val(hex_digit(n % 10)) == Some(n % 10));
        assert(dec_val(d) == 10 * (n / 10) + n % 10);
        assert(10 * (n / 10) + n % 10 == n) by (nonlinear_arith)
            requires
                n >= 0,
        ;
        assert forall|i: int| 0 <= i < d.len() implies #[trigger] digit_val(d[i]) is Some by {
            if i < p.len() {
                assert(d[i] == p[i]);
            } else {
                assert(d[i] == hex_digit(n % 10));
            }
        }
        assert(d[0] == p[0]);
    }
}

/// The count of spaces that open `s`.
pub open spec fn count_leading_spaces(s: Seq<char>) -> int
    decreases s.len(),
{
    if s.len() > 0 && s[0] == ' ' {
        1 + count_leading_spaces(s.skip(1))
    } else {
        0
    }
}

/// The count of spaces that close `s`.
pub open spec fn count_trailing_spaces(s: Seq<char>) -> int
    decreases s.len(),
{
    if s.len() > 0 && s.last() == ' ' {
        1 + count_trailing_spaces(s.drop_last())
    } else {
        0
    }
}

/// `s` with its outer spaces removed.
pub open spec fn trim_spaces(s: Seq<char>) -> Seq<char> {
    let a = count_leading_spaces(s);
    let b = s.len() - count_trailing_spaces(s);
    if a < b {
        s.subrange(a, b)
    } else {
        Seq::empty()
    }
}

/// What a 10-character dimension field denotes: its digits' value, spaces
/// around them allowed, provided the value is positive and fits `u32`.
pub open spec fn parse_dim(s: Seq<char>) -> Option<u32> {
    let t = trim_spaces(s);
    if t.len() > 0 && all_digits(t) && 0 < dec_val(t) <= 0xFFFF_FFFFint {
        Some(dec_val(t) as u32)
    } else {
        None
    }
}

/// Appending spaces to a sequence that does not end in a space adds
/// exactly those spaces to the trailing count.
proof fn lemma_trailing_spaces_append(x: Seq<char>, k: int)
    requires
        x.len() > 0,
        x.last() != ' ',
        0 <= k,
    ensures
        count_trailing_spaces(x + spaces(k)) == k,
        count_leading_spaces(x + spaces(k)) == (if x[0] == ' ' {
            count_leading_spaces(x + spaces(k))
        } else {
            0
        }),
    decreases k,
{
    let w = x + spaces(k);
    assert(w.len() == x.len() + k);
    if k == 0 {
        assert(w =~= x);
    } else {
        assert(w.last() == spaces(k)[k - 1]);
        assert(w.last() == ' ');
        assert(w.drop_last() =~= x + spaces(k - 1));
        lemma_trailing_spaces_append(x, k - 1);
    }
    if x[0] != ' ' {
        assert(w[0] == x[0]);
    }
}

/// The field written for a positive number reads back as that number.
pub proof fn lemma_parse_dim_pad10(n: u32)
    requires
        n >= 1,
    ensures
        parse_dim(pad10(n)) == Some(n),
{
    let d = dec_digits(n as int);
    let w = pad10(n);
    lemma_dec_digits_len_u32(n);
    lemma_dec_val_of_digits(n as int);
    lemma_trailing_spaces_append(d, 10 - d.len());
    assert(w[0] == d[0]);
    assert(count_leading_spaces(w) == 0);
    assert(count_trailing_spaces(w) == 10 - d.len());
    assert(trim_spaces(w) =~= d);
}

fn push_dec(out: &mut Vec<char>, n: u32)
    ensures
        final(out)@ == old(out)@ + dec_digits(n as int),
    decreases n,
{
    if n < 10 {
        out.push(hex_digit_exec(n));
        proof {
            assert(out@ =~= old(out)@ + dec_digits(n as int));
        }
    } else {
        push_dec(out, n / 10);
        let d = hex_digit_exec(n % 10);
        let ghost mid = out@;
        out.push(d);
        proof {
            assert(out@ =~= mid + seq![d]);
            assert((old(out)@ + dec_digits(n as int / 10)) + seq![hex_digit(n as int % 10)] =~= old(
                out,
            )@ + (dec_digits(n as int / 10) + seq![hex_digit(n as int % 10)]));
        }
    }
}

/// Write `n` into the 10-character field: digits, then spaces.
pub(crate) fn push_pad10(out: &mut Vec<char>, n: u32)
    ensures
        final(out)@ == old(out)@ + pad10(n),
{
    let mut tmp: Vec<char> = Vec::new();
    push_dec(&mut tmp, n);
    proof {
        lemma_dec_digits_len_u32(n);
    }
    let m = tmp.len();
    let mut j: usize = 0;
    proof {
        assert(tmp@.take(0) =~= Seq::<char>::empty());
        assert(out@ + Seq::<char>::empty() =~= out@);
    }
    while j < m
        invariant
            0 <= j <= m == tmp.len(),
            out@ == old(out)@ + tmp@.take(j as int),
        decreases m - j,
    {
        out.push(tmp[j]);
        j = j + 1;
        proof {
            assert(tmp@.take(j as int) =~= tmp@.take(j as int - 1).push(tmp@[j as int - 1]));
            assert(old(out)@ + tmp@.take(j as int - 1).push(tmp@[j as int - 1]) =~= (old(out)@
                + tmp@.take(j as int - 1)).push(tmp@[j as int - 1]));
        }
    }
    proof {
        assert(tmp@.take(m as int) =~= tmp@);
    }
    let mut k: usize = m;
    proof {
        assert(spaces(0) =~= Seq::<char>::empty());
        assert((old(out)@ + tmp@) + Seq::<char>::empty() =~= old(out)@ + tmp@);
    }
    while k < 10
        invariant
            m <= k <= 10,
            m == tmp.len() <= 10,
            tmp@ == dec_digits(n as int),
            out@ == (old(out)@ + tmp@) + spaces(k - m),
        decreases 10 - k,
    {
        out.push(' ');
        k = k + 1;
        proof {
            assert(spaces(k - m) =~= spaces(k - m - 1).push(' '));
            assert(((old(out)@ + tmp@) + spaces(k - m - 1)).push(' ') =~= (old(out)@ + tmp@)
                + spaces(k - m - 1).push(' '));
        }
    }
    proof {
        assert((old(out)@ + tmp@) + spaces(10 - m) =~= old(out)@ + (tmp@ + spaces(10 - m)));
    }
}

fn digit_val_exec(c: char) -> (r: Option<u8>)
    ensures
        match r {
            Some(d) => digit_val(c) == Some(d as int) && d < 10,
            None => digit_val(c) is None,
        },
{
    match hex_val_exec(c) {
        Some(d) => if d < 10 {
            Some(d)
        } else {
            None
        },
        None => None,
    }
}

/// Read one 10-character dimension field: spaces, digits, spaces.
pub(crate) fn parse_dim_chars(v: &Vec<char>) -> (r: Option<u32>)
    requires
        v@.len() <= 10,
    ensures
        r == parse_dim(v@),
{
    let n = v.len();
    let mut a: usize = 0;
    proof {
        assert(v@.skip(0) =~= v@);
    }
    while a < n && v[a] == ' '
        invariant
            0 <= a <= n,
            n == v@.len(),
            count_leading_spaces(v@) == a + count_leading_spaces(v@.skip(a as int)),
        decreases n - a,
    {
        proof {
            assert(v@.skip(a as int)[0] == v@[a as int]);
            assert(v@.skip(a as int).skip(1) =~= v@.skip(a as int + 1));
        }
        a = a + 1;
    }
    proof {
        if a < n {
            assert(v@.skip(a as int)[0] == v@[a as int]);
        }
        assert(count_leading_spaces(v@.skip(a as int)) == 0);
        assert(count_leading_spaces(v@) == a);
    }
    let mut b: usize = n;
    proof {
        assert(v@.take(n as int) =~= v@);
    }
    while b > 0 && v[b - 1] == ' '
        invariant
            0 <= b <= n,
            n == v@.len(),
            count_trailing_spaces(v@) == (n - b) + count_trailing_spaces(v@.take(b as int)),
        decreases b,
    {
        proof {
            assert(v@.take(b as int).last() == v@[b as int - 1]);
            assert(v@.take(b as int).drop_last() =~= v@.take(b as int - 1));
        }
        b = b - 1;
    }
    proof {
        if b > 0 {
            assert(v@.take(b as int).last() == v@[b as int - 1]);
        }
        assert(count_trailing_spaces(v@.take(b as int)) == 0);
        assert(count_trailing_spaces(v@) == n - b);
    }
    if a >= b {
        return None;
    }
    let ghost t = v@.subrange(a as int, b as int);
    proof {
        assert(trim_spaces(v@) =~= t);
        assert(t.take(0) =~= Seq::<char>::empty());
        reveal_with_fuel(pow10, 2);
    }
    let mut i: usize = a;
    let mut val: u64 = 0;
    while i < b
        invariant
            a <= i <= b <= n,
            n == v@.len() <= 10,
            a < b,
            t == v@.subrange(a as int, b as int),
            trim_spaces(v@) == t,
            all_digits(t.take(i - a)),
            val == dec_val(t.take(i - a)),
            val < pow10((i - a) as nat),
        decreases b - i,
    {
        let c = v[i];
        proof {
            assert(t[i - a] == v@[i as int]);
        }
        let d = match digit_val_exec(c) {
            Some(d) => d,
            None => {
                proof {
                    assert(!all_digits(t));
                }
                return None;
            },
        };
        proof {
            assert(pow10(((i - a) + 1) as nat) == 10 * pow10((i - a) as nat));
            assert(10 * val + d < 10 * pow10((i - a) as nat)) by (nonlinear_arith)
                requires
                    val < pow10((i - a) as nat),
                    d < 10,
                    val >= 0,
            ;
            lemma_dec_digits_len_u32(0);
            reveal_with_fuel(pow10, 11);
            assert(pow10(((i - a) + 1) as nat) <= pow10(10nat)) by {
                lemma_pow10_mono(((i - a) + 1) as nat, 10nat);
            }
        }
        val = val * 10 + (d as u64);
        i = i + 1;
        proof {
            assert(t.take(i - a).drop_last() =~= t.take(i - a - 1));
            assert(t.take(i - a).last() == t[i - a - 1]);
            assert(dec_val(t.take(i - a)) == 10 * dec_val(t.take(i - a - 1)) + (d as int));
            assert forall|q: int| 0 <= q < i - a implies #[trigger] digit_val(
                t.take(i - a)[q],
            ) is Some by {
                if q < i - a - 1 {
                    assert(t.take(i - a)[q] == t.take(i - a - 1)[q]);
                } else {
                    assert(t.take(i - a)[q] == t[i - a - 1]);
                }
            }
        }
    }
    proof {
        assert(t.take(b - a) =~= t);
    }
    if val == 0 {
        return None;
    }
    if val > 0xFFFF_FFFF {
        return None;
    }
    Some(val as u32)
}

pub proof fn lemma_pow10_mono(j: nat, k: nat)
    requires
        j <= k,
    ensures
        pow10(j) <= pow10(k),
        pow10(j) >= 1,
    decreases k,
{
    if k > 0 {
        lemma_pow10_mono((if j == k {
            (j - 1) as nat
        } else {
            j
        }), (k - 1) as nat);
        assert(pow10(k) == 10 * pow10((k - 1) as nat));
    }
}

/// The whole image payload: both dimension fields, then base64 pixels.
pub open spec fn spec_image_payload(w: u32, h: u32, b: Seq<u8>) -> Seq<char> {
    pad10(w) + pad10(h) + crate::wrappers::b64_of(b)
}

/// How an image payload built from `w`, `h` and `b` comes apart again:
/// its header fields read back as `w` and `h`, and its tail is exactly
/// the base64 text of `b`.
pub proof fn lemma_payload_shape(data: Seq<char>, w: u32, h: u32, b: Seq<u8>)
    requires
        data == spec_image_payload(w, h, b),
        w >= 1,
        h >= 1,
    ensures
        data.len() >= 20,
        parse_dim(data.take(10)) == Some(w),
        parse_dim(data.subrange(10, 20)) == Some(h),
        data.skip(20) == crate::wrappers::b64_of(b),
{
    lemma_dec_digits_len_u32(w);
    lemma_dec_digits_len_u32(h);
    lemma_parse_dim_pad10(w);
    lemma_parse_dim_pad10(h);
    assert(data.take(10) =~= pad10(w));
    assert(data.subrange(10, 20) =~= pad10(h));
    assert(data.skip(20) =~= crate::wrappers::b64_of(b));
}

// ---------------------------------------------------------------------------
// The codec's laws: what the scanner and the parser make of an encoded
// message, whatever stands after it in the read buffer.
// ---------------------------------------------------------------------------

/// When the first part closes an object, what follows it changes nothing.
proof fn lemma_scan_concat_some(s1: Seq<char>, s2: Seq<char>, depth: int, in_str: bool, esc: bool)
    ensures
        scan_from(s1, depth, in_str, esc) matches Some(n) ==> scan_from(
            s1 + s2,
            depth,
            in_str,
            esc,
        ) == Some(n),
    decreases s1.len(),
{
    if s1.len() > 0 {
        let st = scan_step(depth, in_str, esc, s1[0]);
        assert((s1 + s2).skip(1) =~= s1.skip(1) + s2);
        lemma_scan_concat_some(s1.skip(1), s2, st.0, st.1, st.2);
    }
}

/// The scanner's state after a concatenation: the state after the first
/// part carries into the second.
proof fn lemma_scan_state_concat(s1: Seq<char>, s2: Seq<char>, depth: int, in_str: bool, esc: bool)
    ensures
        ({
            let st = scan_state(s1, depth, in_str, esc);
            scan_state(s1 + s2, depth, in_str, esc) == scan_state(s2, st.0, st.1, st.2)
        }),
    decreases s1.len(),
{
    if s1.len() == 0 {
        assert(s1 + s2 =~= s2);
    } else {
        let st = scan_step(depth, in_str, esc, s1[0]);
        assert((s1 + s2).skip(1) =~= s1.skip(1) + s2);
        lemma_scan_state_concat(s1.skip(1), s2, st.0, st.1, st.2);
    }
}

/// A single in-string character that is neither a backslash nor a quote
/// leaves the scanner where it was.
proof fn lemma_scan_neutral_char(c: char, depth: int)
    requires
        c != '\\',
        c != '"',
    ensures
        scan_from(seq![c], depth, true, false) is None,
        scan_state(seq![c], depth, true, false) == (depth, true, false),
{
    assert(seq![c].len() == 1);
    assert(seq![c][0] == c);
    assert(seq![c].skip(1) =~= Seq::<char>::empty());
    assert(scan_step(depth, true, false, c) == (depth, true, false));
    assert(scan_from(Seq::<char>::empty(), depth, true, false) is None);
    assert(scan_state(Seq::<char>::empty(), depth, true, false) == (depth, true, false));
    assert(scan_from(seq![c], depth, true, false) is None);
    assert(scan_state(seq![c], depth, true, false) == (depth, true, false));
}

/// A backslash escape inside a string leaves the scanner where it was,
/// whatever the escaped character is.
proof fn lemma_scan_esc_pair(e: char, depth: int)
    ensures
        scan_from(seq!['\\', e], depth, true, false) is None,
        scan_state(seq!['\\', e], depth, true, false) == (depth, true, false),
{
    let piece = seq!['\\', e];
    assert(piece.len() == 2);
    assert(piece[0] == '\\');
    assert(piece[1] == e);
    assert(piece.skip(1) =~= seq![e]);
    assert(seq![e].len() == 1);
    assert(seq![e][0] == e);
    assert(seq![e].skip(1) =~= Seq::<char>::empty());
    assert(scan_step(depth, true, false, '\\') == (depth, true, true));
    assert(scan_step(depth, true, true, e) == (depth, true, false));
    assert(scan_from(Seq::<char>::empty(), depth, true, false) is None);
    assert(scan_state(Seq::<char>::empty(), depth, true, false) == (depth, true, false));
    assert(scan_from(seq![e], depth, true, true) is None);
    assert(scan_state(seq![e], depth, true, true) == (depth, true, false));
    assert(scan_from(piece, depth, true, false) is None);
    assert(scan_state(piece, depth, true, false) == (depth, true, false));
}

/// Scanning one escaped character of a payload keeps the scanner inside
/// the string.
proof fn lemma_scan_esc_char(c: char, depth: int)
    ensures
        scan_from(esc_char(c), depth, true, false) is None,
        scan_state(esc_char(c), depth, true, false) == (depth, true, false),
{
    if c == '"' {
        lemma_scan_esc_pair('"', depth);
    } else if c == '\\' {
        lemma_scan_esc_pair('\\', depth);
    } else if c == '\n' {
        lemma_scan_esc_pair('n', depth);
    } else if c == '\r' {
        lemma_scan_esc_pair('r', depth);
    } else if c == '\t' {
        lemma_scan_esc_pair('t', depth);
    } else if (c as u32) < 0x20 {
        let h = hex_digit((c as u32) as int / 16);
        let l = hex_digit((c as u32) as int % 16);
        let tail = seq!['0', '0', h, l];
        assert(esc_char(c) =~= seq!['\\', 'u'] + tail);
        lemma_scan_esc_pair('u', depth);
        assert(h != '\\' && h != '"');
        assert(l != '\\' && l != '"');
        assert(tail =~= seq!['0'] + (seq!['0'] + (seq![h] + seq![l])));
        lemma_scan_neutral_char('0', depth);
        lemma_scan_neutral_char(h, depth);
        lemma_scan_neutral_char(l, depth);
        lemma_scan_concat(seq![h], seq![l], depth, true, false);
        lemma_scan_concat(seq!['0'], seq![h] + seq![l], depth, true, false);
        lemma_scan_concat(seq!['0'], seq!['0'] + (seq![h] + seq![l]), depth, true, false);
        lemma_scan_concat(seq!['\\', 'u'], tail, depth, true, false);
        assert(scan_from(seq![h] + seq![l], depth, true, false) is None);
        assert(scan_from(seq!['0'] + (seq![h] + seq![l]), depth, true, false) is None);
        assert(scan_from(seq!['0'] + (seq!['0'] + (seq![h] + seq![l])), depth, true, false)
            is None);
        assert(scan_from(tail, depth, true, false) is None);
        assert(scan_state(seq!['\\', 'u'], depth, true, false) == (depth, true, false));
        assert(scan_from(seq!['\\', 'u'] + tail, depth, true, false) is None);
        assert(scan_from(esc_char(c), depth, true, false) is None);
        assert(scan_state(seq![h] + seq![l], depth, true, false) == (depth, true, false)) by {
            lemma_scan_state_concat(seq![h], seq![l], depth, true, false);
        }
        assert(scan_state(seq!['0'] + (seq![h] + seq![l]), depth, true, false) == (
            depth,
            true,
            false,
        )) by {
            lemma_scan_state_concat(seq!['0'], seq![h] + seq![l], depth, true, false);
        }
        assert(scan_state(tail, depth, true, false) == (depth, true, false)) by {
            lemma_scan_state_concat(seq!['0'], seq!['0'] + (seq![h] + seq![l]), depth, true, false);
        }
        assert(scan_state(seq!['\\', 'u'] + tail, depth, true, false) == (depth, true, false)) by {
            lemma_scan_state_concat(seq!['\\', 'u'], tail, depth, true, false);
        }
        assert(scan_state(esc_char(c), depth, true, false) == (depth, true, false));
    } else {
        lemma_scan_neutral_char(c, depth);
        assert(esc_char(c) =~= seq![c]);
    }
}

/// Scanning a whole escaped payload keeps the scanner inside the string:
/// nothing in it can close the envelope early.
proof fn lemma_scan_escape(p: Seq<char>, depth: int)
    ensures
        scan_from(escape_str(p), depth, true, false) is None,
        scan_state(escape_str(p), depth, true, false) == (depth, true, false),
    decreases p.len(),
{
    if p.len() == 0 {
        assert(escape_str(p).len() == 0);
    } else {
        lemma_scan_esc_char(p[0], depth);
        lemma_scan_escape(p.skip(1), depth);
        lemma_scan_concat(esc_char(p[0]), escape_str(p.skip(1)), depth, true, false);
        lemma_scan_state_concat(esc_char(p[0]), escape_str(p.skip(1)), depth, true, false);
    }
}

#[verifier::rlimit(100)]
proof fn lemma_scan_lit_open()
    ensures
        scan_from(lit_open(), 0, false, false) is None,
        scan_state(lit_open(), 0, false, false) == (1int, true, false),
{
    reveal_with_fuel(scan_from, 16);
    reveal_with_fuel(scan_state, 16);
}

#[verifier::rlimit(100)]
proof fn lemma_scan_lit_mid()
    ensures
        scan_from(lit_mid(), 1, true, false) is None,
        scan_state(lit_mid(), 1, true, false) == (1int, true, false),
{
    reveal_with_fuel(scan_from, 12);
    reveal_with_fuel(scan_state, 12);
}

#[verifier::rlimit(100)]
proof fn lemma_scan_lit_close()
    ensures
        scan_from(lit_close(), 1, true, false) == Some(2int),
{
    reveal_with_fuel(scan_from, 3);
}

#[verifier::rlimit(100)]
proof fn lemma_scan_kind_name(k: crate::tcp::TcpDataType)
    ensures
        scan_from(kind_name(k), 1, true, false) is None,
        scan_state(kind_name(k), 1, true, false) == (1int, true, false),
{
    reveal_with_fuel(scan_from, 9);
    reveal_with_fuel(scan_state, 9);
}

/// Where the scanner ends on one whole encoded message: exactly one past
/// its closing brace.
proof fn lemma_scan_encode(k: crate::tcp::TcpDataType, d: Seq<char>)
    ensures
        scan_from(spec_encode(k, d), 0, false, false) == Some(spec_encode(k, d).len() as int),
{
    let a = lit_open();
    let b = kind_name(k);
    let c = lit_mid();
    let e = escape_str(d);
    let f = lit_close();
    let s = spec_encode(k, d);
    assert(s =~= a + (b + (c + (e + f))));
    lemma_scan_lit_open();
    lemma_scan_kind_name(k);
    lemma_scan_lit_mid();
    lemma_scan_escape(d, 1);
    lemma_scan_lit_close();
    lemma_scan_concat(e, f, 1, true, false);
    assert(scan_from(e + f, 1, true, false) == Some(e.len() as int + 2));
    lemma_scan_concat(c, e + f, 1, true, false);
    lemma_scan_concat(b, c + (e + f), 1, true, false);
    lemma_scan_concat(a, b + (c + (e + f)), 0, false, false);
    assert(scan_from(s, 0, false, false) == Some(a.len() as int + (b.len() as int + (c.len() as int + (e.len() as int + 2)))));
    assert(s.len() == a.len() + b.len() + c.len() + e.len() + f.len());
}

/// The framing scan finds exactly the boundary of an encoded message,
/// whatever follows it in the buffer.
pub proof fn lemma_find_json_end_encode(
    k: crate::tcp::TcpDataType,
    d: Seq<char>,
    rest: Seq<char>,
)
    ensures
        spec_find_json_end(spec_encode(k, d) + rest) == Some(spec_encode(k, d).len() as int),
        spec_find_json_end(spec_encode(k, d)) == Some(spec_encode(k, d).len() as int),
{
    lemma_scan_encode(k, d);
    lemma_scan_concat_some(spec_encode(k, d), rest, 0, false, false);
}

/// Reading an escaped payload back: the string-body parser undoes the
/// escaping exactly, stops at the closing quote, and leaves what follows
/// untouched.
proof fn lemma_parse_str_encode(p: Seq<char>, t: Seq<char>)
    ensures
        parse_str_body(escape_str(p) + seq!['"'] + t) == Some(
            (p, escape_str(p).len() + 1 as int),
        ),
    decreases p.len(),
{
    broadcast use vstd::utf8::char_u32_cast;

    let s = escape_str(p) + seq!['"'] + t;
    if p.len() == 0 {
        assert(escape_str(p).len() == 0);
        assert(s[0] == '"');
        assert(parse_str_body(s) == Some((Seq::<char>::empty(), 1int)));
        assert(p =~= Seq::<char>::empty());
    } else {
        let c = p[0];
        let piece = esc_char(c);
        let rest = escape_str(p.skip(1)) + seq!['"'] + t;
        assert(escape_str(p) == piece + escape_str(p.skip(1)));
        assert(s =~= piece + rest);
        lemma_parse_str_encode(p.skip(1), t);
        if c == '"' || c == '\\' || c == '\n' || c == '\r' || c == '\t' {
            assert(piece.len() == 2);
            assert(s[0] == piece[0] && s[1] == piece[1]);
            assert(s[0] == '\\');
            assert(s[1] != 'u');
            assert(simple_unescape(s[1]) == Some(c));
            assert(s.skip(2) =~= rest);
            assert(parse_str_body(s) == Some((seq![c] + p.skip(1), 2 + (escape_str(p.skip(1)).len()
                + 1 as int))));
            assert(seq![c] + p.skip(1) =~= p);
        } else if (c as u32) < 0x20 {
            let v = (c as u32) as int;
            let h = hex_digit(v / 16);
            let l = hex_digit(v % 16);
            assert(piece == seq!['\\', 'u', '0', '0', h, l]);
            assert(piece.len() == 6);
            assert(s[0] == '\\' && s[1] == 'u' && s[2] == '0' && s[3] == '0' && s[4] == h && s[5]
                == l);
            assert(s.len() >= 6);
            assert(hex_val(h) == Some(v / 16));
            assert(hex_val(l) == Some(v % 16));
            assert((v / 16) * 16 + v % 16 == v) by (nonlinear_arith)
                requires
                    v >= 0,
            ;
            assert(s.skip(6) =~= rest);
            assert(v == c as u32);
            assert((v as u8) as u32 == v);
            vstd::utf8::char_u32_cast(c, (v as u8) as u32);
            assert((((v as u8) as u32) as char) == c);
            assert((v as u8) as char == (((v as u8) as u32) as char));
            assert(((v as u8) as char) == c);
            assert(parse_str_body(s) == Some((seq![c] + p.skip(1), 6 + (escape_str(p.skip(1)).len()
                + 1 as int))));
            assert(seq![c] + p.skip(1) =~= p);
        } else {
            assert(piece == seq![c]);
            assert(s[0] == c);
            assert(s[0] != '"' && s[0] != '\\' && (s[0] as u32) >= 0x20);
            assert(s.skip(1) =~= rest);
            assert(parse_str_body(s) == Some((seq![c] + p.skip(1), 1 + (escape_str(p.skip(1)).len()
                + 1 as int))));
            assert(seq![c] + p.skip(1) =~= p);
        }
    }
}

/// A sequence whose first character disagrees with a pattern's first
/// character does not start with that pattern.
proof fn lemma_not_starts_with_first(s: Seq<char>, p: Seq<char>)
    requires
        p.len() > 0,
        s.len() > 0,
        s[0] != p[0],
    ensures
        !starts_with(s, p),
{
    if starts_with(s, p) {
        assert(s.take(p.len() as int)[0] == s[0]);
    }
}

/// Reading a kind name back: the kind parser recognises exactly the name
/// written, closing quote included.
proof fn lemma_parse_kind_encode(k: crate::tcp::TcpDataType, t: Seq<char>)
    ensures
        parse_kind(kind_name(k) + seq!['"'] + t) == Some((k, kind_name(k).len() + 1 as int)),
{
    let s = kind_name(k) + seq!['"'] + t;
    let pat = kind_name(k) + seq!['"'];
    assert(s =~= pat + t);
    assert(s.take(pat.len() as int) =~= pat);
    assert(starts_with(s, pat));
    let pt = kind_name(crate::tcp::TcpDataType::Text) + seq!['"'];
    let pb = kind_name(crate::tcp::TcpDataType::Blob) + seq!['"'];
    let pi = kind_name(crate::tcp::TcpDataType::Image) + seq!['"'];
    let pc = kind_name(crate::tcp::TcpDataType::Command) + seq!['"'];
    assert(pt[0] == 'T' && pb[0] == 'B' && pi[0] == 'I' && pc[0] == 'C');
    match k {
        crate::tcp::TcpDataType::Text => {},
        crate::tcp::TcpDataType::Blob => {
            assert(s[0] == 'B');
            lemma_not_starts_with_first(s, pt);
        },
        crate::tcp::TcpDataType::Image => {
            assert(s[0] == 'I');
            lemma_not_starts_with_first(s, pt);
            lemma_not_starts_with_first(s, pb);
        },
        crate::tcp::TcpDataType::Command => {
            assert(s[0] == 'C');
            lemma_not_starts_with_first(s, pt);
            lemma_not_starts_with_first(s, pb);
            lemma_not_starts_with_first(s, pi);
        },
    }
}

/// Parsing an encoded message peels exactly that message off the buffer:
/// the kind and payload come back as written, the count consumed is the
/// encoding's length, and whatever follows is untouched.
#[verifier::rlimit(100)]
pub proof fn lemma_parse_encode(k: crate::tcp::TcpDataType, d: Seq<char>, rest: Seq<char>)
    ensures
        parse_object(spec_encode(k, d) + rest) == Some(
            (k, d, spec_encode(k, d).len() as int),
        ),
{
    let a = lit_open();
    let b = kind_name(k);
    let c = lit_mid();
    let e = escape_str(d);
    let f = lit_close();
    let enc = spec_encode(k, d);
    let s = enc + rest;
    let nb = b.len() as int;
    let ne = e.len() as int;
    assert(s =~= a + b + c + e + f + rest);
    assert(a.len() == 14 && c.len() == 10 && f.len() == 2);
    assert(s.len() == 26 + nb + ne + rest.len());
    assert(s[0] == '{');
    assert(ws_count(s) == 0);
    assert(s[1] == '"' && s[2] == 'd' && s[3] == 'a' && s[4] == 't' && s[5] == 'a' && s[6] == '_'
        && s[7] == 't' && s[8] == 'y' && s[9] == 'p' && s[10] == 'e' && s[11] == '"' && s[12]
        == ':' && s[13] == '"');
    assert(ws_count(s.skip(1)) == 0) by {
        assert(s.skip(1)[0] == s[1]);
    }
    assert(starts_with(s.skip(1), lit_dt())) by {
        assert(s.skip(1).take(11) =~= lit_dt());
    }
    assert(ws_count(s.skip(12)) == 0) by {
        assert(s.skip(12)[0] == s[12]);
    }
    assert(ws_count(s.skip(13)) == 0) by {
        assert(s.skip(13)[0] == s[13]);
    }
    assert(s.skip(14) =~= b + seq!['"'] + (c.skip(1) + e + f + rest));
    lemma_parse_kind_encode(k, c.skip(1) + e + f + rest);
    assert(parse_kind(s.skip(14)) == Some((k, nb + 1)));
    let q = 14 + nb;
    assert(s[q + 1] == c[1] && s[q + 2] == c[2] && s[q + 3] == c[3] && s[q + 4] == c[4] && s[q + 5]
        == c[5] && s[q + 6] == c[6] && s[q + 7] == c[7] && s[q + 8] == c[8] && s[q + 9] == c[9]);
    assert(s[q + 1] == ',');
    assert(ws_count(s.skip(q + 1)) == 0) by {
        assert(s.skip(q + 1)[0] == s[q + 1]);
    }
    assert(ws_count(s.skip(q + 2)) == 0) by {
        assert(s.skip(q + 2)[0] == s[q + 2]);
    }
    assert(starts_with(s.skip(q + 2), lit_data())) by {
        assert(s.skip(q + 2).take(6) =~= lit_data());
    }
    assert(s[q + 8] == ':');
    assert(ws_count(s.skip(q + 8)) == 0) by {
        assert(s.skip(q + 8)[0] == s[q + 8]);
    }
    assert(ws_count(s.skip(q + 9)) == 0) by {
        assert(s.skip(q + 9)[0] == s[q + 9]);
    }
    assert(s[q + 9] == '"');
    assert(s.skip(q + 10) =~= e + seq!['"'] + (seq!['}'] + rest));
    lemma_parse_str_encode(d, seq!['}'] + rest);
    assert(parse_str_body(s.skip(q + 10)) == Some((d, ne + 1)));
    let z = q + 10 + ne + 1;
    assert(s[z] == '}');
    assert(ws_count(s.skip(z)) == 0) by {
        assert(s.skip(z)[0] == s[z]);
    }
    assert(parse_object(s) == Some((k, d, z + 1)));
    assert(z + 1 == enc.len());
}

/// The view of a sequence of messages.
pub open spec fn msgs_view(v: Seq<crate::tcp::TcpData>) -> Seq<crate::tcp::TcpDataView> {
    v.map_values(|t: crate::tcp::TcpData| t@)
}

/// Peel messages off a buffer, greedily and repeatedly: each complete
/// object found by the framing scan is parsed; objects that parse are
/// kept in order, objects that do not are dropped; the scan stopping ends
/// the split. The second component counts the characters consumed; a
/// trailing incomplete object is left for the next read.
pub open spec fn spec_split(s: Seq<char>) -> (Seq<crate::tcp::TcpDataView>, int)
    decreases s.len(),
{
    match spec_find_json_end(s) {
        None => (Seq::empty(), 0),
        Some(end) => if 1 <= end <= s.len() {
            let obj = s.take(end);
            let rest = spec_split(s.skip(end));
            match parse_object(obj) {
                Some(t) => (
                    seq![crate::tcp::TcpDataView { data_type: t.0, data: t.1 }] + rest.0,
                    end + rest.1,
                ),
                None => (rest.0, end + rest.1),
            }
        } else {
            (Seq::empty(), 0)
        },
    }
}

/// Round trip: parsing the wire text of any message yields exactly that
/// message, kind and payload both, and consumes exactly its text.
pub proof fn lemma_encode_parse_round_trip(k: crate::tcp::TcpDataType, d: Seq<char>)
    ensures
        parse_object(spec_encode(k, d)) == Some((k, d, spec_encode(k, d).len() as int)),
        spec_find_json_end(spec_encode(k, d)) == Some(spec_encode(k, d).len() as int),
{
    lemma_parse_encode(k, d, Seq::empty());
    assert(spec_encode(k, d) + Seq::<char>::empty() =~= spec_encode(k, d));
    lemma_find_json_end_encode(k, d, Seq::empty());
}

/// A buffer holding nothing yields nothing.
pub proof fn lemma_split_empty()
    ensures
        spec_split(Seq::<char>::empty()) == (Seq::<crate::tcp::TcpDataView>::empty(), 0int),
{
    assert(scan_from(Seq::<char>::empty(), 0, false, false) is None);
}

/// Multi-message framing: one buffer holding two whole encoded messages
/// yields both messages, in order, and consumes the whole buffer.
pub proof fn lemma_split_two_messages(
    k1: crate::tcp::TcpDataType,
    d1: Seq<char>,
    k2: crate::tcp::TcpDataType,
    d2: Seq<char>,
)
    ensures
        ({
            let e1 = spec_encode(k1, d1);
            let e2 = spec_encode(k2, d2);
            spec_split(e1 + e2) == (
                seq![
                    crate::tcp::TcpDataView { data_type: k1, data: d1 },
                    crate::tcp::TcpDataView { data_type: k2, data: d2 },
                ],
                (e1.len() + e2.len()) as int,
            )
        }),
{
    let e1 = spec_encode(k1, d1);
    let e2 = spec_encode(k2, d2);
    let s = e1 + e2;
    lemma_find_json_end_encode(k1, d1, e2);
    assert(s.take(e1.len() as int) =~= e1);
    assert(s.skip(e1.len() as int) =~= e2);
    lemma_encode_parse_round_trip(k1, d1);
    lemma_encode_parse_round_trip(k2, d2);
    assert(e2.take(e2.len() as int) =~= e2);
    assert(e2.skip(e2.len() as int) =~= Seq::<char>::empty());
    lemma_split_empty();
    let m1 = crate::tcp::TcpDataView { data_type: k1, data: d1 };
    let m2 = crate::tcp::TcpDataView { data_type: k2, data: d2 };
    assert(spec_split(e2) == (seq![m2] + Seq::<crate::tcp::TcpDataView>::empty(), e2.len() as int));
    assert(seq![m2] + Seq::<crate::tcp::TcpDataView>::empty() =~= seq![m2]);
    assert(spec_split(s) == (seq![m1] + seq![m2], e1.len() as int + e2.len() as int));
    assert(seq![m1] + seq![m2] =~= seq![m1, m2]);
}

/// Truncated framing: a buffer holding any strict prefix of one encoded
/// message yields no message and consumes nothing; the fragment waits
/// for the rest.
pub proof fn lemma_split_truncated(k: crate::tcp::TcpDataType, d: Seq<char>, n: int)
    requires
        0 <= n < spec_encode(k, d).len(),
    ensures
        spec_split(spec_encode(k, d).take(n)) == (Seq::<crate::tcp::TcpDataView>::empty(), 0int),
{
    let enc = spec_encode(k, d);
    lemma_scan_encode(k, d);
    lemma_scan_prefix_none(enc, 0, false, false, n);
}

/// A copy of `v[a..b]`.
pub(crate) fn subvec(v: &Vec<char>, a: usize, b: usize) -> (r: Vec<char>)
    requires
        a <= b <= v.len(),
    ensures
        r@ == v@.subrange(a as int, b as int),
{
    let mut r: Vec<char> = Vec::new();
    let mut i: usize = a;
    while i < b
        invariant
            a <= i <= b <= v.len(),
            r@ == v@.subrange(a as int, i as int),
        decreases b - i,
    {
        r.push(v[i]);
        i = i + 1;
        proof {
            assert(r@ =~= v@.subrange(a as int, i as int));
        }
    }
    r
}

} // verus!
