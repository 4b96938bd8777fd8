use vstd::prelude::*;

verus! {

/// Errors of the debug-bridge protocol logic.
#[derive(Debug, Clone, PartialEq, Eq)]
pub enum AdbError {
    /// The server answered FAIL, with the reason it sent.
    ResponseError(String),
    /// A payload did not parse.
    ParseError(String),
    /// The four status bytes were neither OKAY nor FAIL.
    UnknownResponseStatus(String),
    /// A device listing line did not parse.
    DeviceInfoParseError(String),
    /// A framebuffer payload did not follow the documented layout.
    ProtocolError(String),
    /// A command could not be carried out; transports report it here.
    CommandFailed(String),
}

pub type AdbResult<T> = Result<T, AdbError>;

/// The decimal digit character for `d` (meaningful for `d < 10`).
pub open spec fn digit_char(d: int) -> char {
    if d == 0 { '0' } else if d == 1 { '1' } else if d == 2 { '2' } else if d == 3 { '3' }
    else if d == 4 { '4' } else if d == 5 { '5' } else if d == 6 { '6' } else if d == 7 { '7' }
    else if d == 8 { '8' } else { '9' }
}

/// The decimal representation of a nonnegative number, most significant
/// digit first.
pub open spec fn dec_digits(n: int) -> Seq<char>
    decreases n,
{
    if n < 10 {
        seq![digit_char(n)]
    } else {
        dec_digits(n / 10).push(digit_char(n % 10))
    }
}

/// The decimal representation of a possibly negative number.
pub open spec fn dec_int(n: int) -> Seq<char> {
    if n < 0 {
        seq!['-'] + dec_digits(-n)
    } else {
        dec_digits(n)
    }
}

/// The single-character string for a decimal digit.
fn digit_str(d: u64) -> (r: &'static str)
    requires
        d < 10,
    ensures
        r@ == seq![digit_char(d as int)],
{
    let r: &'static str = match d {
        0 => "0",
        1 => "1",
        2 => "2",
        3 => "3",
        4 => "4",
        5 => "5",
        6 => "6",
        7 => "7",
        8 => "8",
        _ => "9",
    };
    proof {
        reveal_strlit("0");
        reveal_strlit("1");
        reveal_strlit("2");
        reveal_strlit("3");
        reveal_strlit("4");
        reveal_strlit("5");
        reveal_strlit("6");
        reveal_strlit("7");
        reveal_strlit("8");
        reveal_strlit("9");
        assert(r@ =~= seq![digit_char(d as int)]);
    }
    r
}

/// Formats `n` in decimal.
pub fn u64_to_string(n: u64) -> (r: String)
    ensures
        r@ == dec_digits(n as int),
    decreases n,
{
    if n < 10 {
        let mut s = String::new();
        s.append(digit_str(n));
        proof {
            assert(s@ =~= dec_digits(n as int));
        }
        s
    } else {
        let mut s = u64_to_string(n / 10);
        s.append(digit_str(n % 10));
        s
    }
}

/// Formats `n` in decimal, with a sign when negative.
pub fn i64_to_string(n: i64) -> (r: String)
    ensures
        r@ == dec_int(n as int),
{
    if n >= 0 {
        u64_to_string(n as u64)
    } else {
        let mut s = String::new();
        s.append("-");
        let m: u64 = if n == i64::MIN { 9223372036854775808u64 } else { (-n) as u64 };
        let rest = u64_to_string(m);
        s.append(rest.as_str());
        proof {
            reveal_strlit("-");
            assert(s@ =~= dec_int(n as int));
        }
        s
    }
}

/// The lowercase hexadecimal digit character for `d` (meaningful for
/// `d < 16`).
pub open spec fn hex_char(d: int) -> char {
    if d < 10 {
        digit_char(d)
    } else if d == 10 { 'a' } else if d == 11 { 'b' } else if d == 12 { 'c' }
    else if d == 13 { 'd' } else if d == 14 { 'e' } else { 'f' }
}

/// The four-digit lowercase hexadecimal rendering of `n` (meaningful for
/// `n < 65536`), as the wire protocol writes payload lengths.
pub open spec fn hex4(n: int) -> Seq<char> {
    seq![
        hex_char((n / 4096) % 16),
        hex_char((n / 256) % 16),
        hex_char((n / 16) % 16),
        hex_char(n % 16),
    ]
}

/// The single-character string for a hexadecimal digit.
fn hex_digit_str(d: u64) -> (r: &'static str)
    requires
        d < 16,
    ensures
        r@ == seq![hex_char(d as int)],
{
    if d < 10 {
        digit_str(d)
    } else {
        let r: &'static str = match d {
            10 => "a",
            11 => "b",
            12 => "c",
            13 => "d",
            14 => "e",
            _ => "f",
        };
        proof {
            reveal_strlit("a");
            reveal_strlit("b");
            reveal_strlit("c");
            reveal_strlit("d");
            reveal_strlit("e");
            reveal_strlit("f");
            assert(r@ =~= seq![hex_char(d as int)]);
        }
        r
    }
}

/// Frames a request for the wire: its length as four lowercase hexadecimal
/// digits, then the request itself.
pub fn frame_request(request: &str) -> (r: String)
    requires
        request@.len() < 65536,
    ensures
        r@ == hex4(request@.len() as int) + request@,
{
    let len: u64 = request.unicode_len() as u64;
    let mut s = String::new();
    s.append(hex_digit_str((len / 4096) % 16));
    s.append(hex_digit_str((len / 256) % 16));
    s.append(hex_digit_str((len / 16) % 16));
    s.append(hex_digit_str(len % 16));
    s.append(request);
    proof {
        assert(s@ =~= hex4(request@.len() as int) + request@);
    }
    s
}

/// The status line of a server response.
#[derive(Debug, Clone, Copy, PartialEq, Eq, Structural)]
pub enum ResponseStatus {
    Okay,
    Fail,
}

/// The four bytes `OKAY`.
pub open spec fn okay_bytes() -> Seq<u8> {
    seq![79u8, 75u8, 65u8, 89u8]
}

/// The four bytes `FAIL`.
pub open spec fn fail_bytes() -> Seq<u8> {
    seq![70u8, 65u8, 73u8, 76u8]
}

impl ResponseStatus {
    /// Reads the four status bytes of a response: `OKAY`, `FAIL`, or an
    /// error naming anything else.
    pub fn parse(status: &[u8]) -> (r: AdbResult<ResponseStatus>)
        ensures
            r == Ok::<ResponseStatus, AdbError>(ResponseStatus::Okay) <==> status@ == okay_bytes(),
            r == Ok::<ResponseStatus, AdbError>(ResponseStatus::Fail) <==> status@ == fail_bytes(),
            r.is_err() <==> status@ != okay_bytes() && status@ != fail_bytes(),
    {
        if status.len() == 4 && status[0] == 79 && status[1] == 75 && status[2] == 65
            && status[3] == 89 {
            proof {
                assert(status@ =~= okay_bytes());
            }
            Ok(ResponseStatus::Okay)
        } else if status.len() == 4 && status[0] == 70 && status[1] == 65 && status[2] == 73
            && status[3] == 76 {
            proof {
                assert(status@ =~= fail_bytes());
                assert(status@ != okay_bytes());
            }
            Ok(ResponseStatus::Fail)
        } else {
            proof {
                if status@.len() == 4 {
                    assert(status@ != okay_bytes() && status@ != fail_bytes());
                } else {
                    assert(okay_bytes().len() == 4 && fail_bytes().len() == 4);
                }
            }
            Err(AdbError::UnknownResponseStatus(String::new()))
        }
    }
}

/// The numeric value of an uppercase-free hexadecimal digit byte, or 16 for
/// anything else.
pub open spec fn hex_val(b: u8) -> int {
    if 48 <= b <= 57 {
        b - 48
    } else if 97 <= b <= 102 {
        b - 87
    } else if 65 <= b <= 70 {
        b - 55
    } else {
        16
    }
}

/// The four length bytes are hexadecimal digits.
pub open spec fn valid_hex4(b: Seq<u8>) -> bool {
    b.len() == 4 && hex_val(b[0]) < 16 && hex_val(b[1]) < 16 && hex_val(b[2]) < 16
        && hex_val(b[3]) < 16
}

/// The payload length the four bytes encode.
pub open spec fn hex4_value(b: Seq<u8>) -> int {
    hex_val(b[0]) * 4096 + hex_val(b[1]) * 256 + hex_val(b[2]) * 16 + hex_val(b[3])
}

/// Parses the four hexadecimal length bytes that precede a payload.
pub fn parse_payload_len(b: &[u8]) -> (r: AdbResult<usize>)
    ensures
        match r {
            Ok(n) => valid_hex4(b@) && n == hex4_value(b@),
            Err(_) => !valid_hex4(b@),
        },
{
    if b.len() != 4 {
        return Err(AdbError::ParseError(String::new()));
    }
    let d0 = hex_digit_val(b[0]);
    let d1 = hex_digit_val(b[1]);
    let d2 = hex_digit_val(b[2]);
    let d3 = hex_digit_val(b[3]);
    match (d0, d1, d2, d3) {
        (Some(a), Some(bb), Some(c), Some(d)) => {
            Ok((a as usize) * 4096 + (bb as usize) * 256 + (c as usize) * 16 + (d as usize))
        }
        _ => Err(AdbError::ParseError(String::new())),
    }
}

/// The value of one hexadecimal digit byte.
fn hex_digit_val(b: u8) -> (r: Option<u8>)
    ensures
        match r {
            Some(v) => hex_val(b) < 16 && v == hex_val(b),
            None => hex_val(b) == 16,
        },
{
    if b >= 48 && b <= 57 {
        Some(b - 48)
    } else if b >= 97 && b <= 102 {
        Some(b - 87)
    } else if b >= 65 && b <= 70 {
        Some(b - 55)
    } else {
        None
    }
}

/// A raw shell command: `shell:<command>`.
pub struct ShellCommand {
    command: String,
}

impl ShellCommand {
    /// The command text after the `shell:` prefix.
    pub closed spec fn spec_command(&self) -> Seq<char> {
        self.command@
    }

    pub fn new(command: String) -> (r: Self)
        ensures
            r.spec_command() == command@,
    {
        ShellCommand { command }
    }

    /// The full request line sent over the wire.
    pub fn raw_command(&self) -> (r: String)
        ensures
            r@ == "shell:"@ + self.spec_command(),
    {
        let mut s = String::new();
        s.append("shell:");
        s.append(self.command.as_str());
        s
    }
}

/// The PNG screen capture command: `shell:screencap -p`.
pub struct ScreenCapPng;

impl ScreenCapPng {
    pub fn new() -> (r: Self) {
        ScreenCapPng
    }

    pub fn raw_command(&self) -> (r: String)
        ensures
            r@ == "shell:screencap -p"@,
    {
        let mut s = String::new();
        s.append("shell:screencap -p");
        proof {
            assert(s@ =~= "shell:screencap -p"@);
        }
        s
    }
}

/// The little-endian 32-bit value at offset `off`.
pub open spec fn le32(b: Seq<u8>, off: int) -> int {
    b[off] + b[off + 1] * 0x100 + b[off + 2] * 0x10000 + b[off + 3] * 0x1000000
}

/// The raw (unencoded) screen capture command: `shell:screencap`.
///
/// Its payload is a 12-byte little-endian header - width, height, and a
/// pixel format that must be 1 - followed by the raw pixel bytes.
pub struct ScreenCapRaw;

impl ScreenCapRaw {
    pub fn new() -> (r: Self) {
        ScreenCapRaw
    }

    pub fn raw_command(&self) -> (r: String)
        ensures
            r@ == "shell:screencap"@,
    {
        let mut s = String::new();
        s.append("shell:screencap");
        proof {
            assert(s@ =~= "shell:screencap"@);
        }
        s
    }

    /// Splits a raw framebuffer payload into width, height, and pixel
    /// bytes; rejects short payloads and any pixel format other than 1.
    pub fn parse_payload(data: &[u8]) -> (r: AdbResult<(u32, u32, Vec<u8>)>)
        ensures
            match r {
                Ok((w, h, px)) => {
                    &&& data@.len() >= 12
                    &&& le32(data@, 8) == 1
                    &&& w == le32(data@, 0)
                    &&& h == le32(data@, 4)
                    &&& px@ == data@.subrange(12, data@.len() as int)
                },
                Err(_) => data@.len() < 12 || le32(data@, 8) != 1,
            },
    {
        if data.len() < 12 {
            return Err(AdbError::ProtocolError(String::new()));
        }
        let w = read_le32(data, 0);
        let h = read_le32(data, 4);
        let format = read_le32(data, 8);
        if format != 1 {
            return Err(AdbError::ProtocolError(String::new()));
        }
        let mut px: Vec<u8> = Vec::new();
        let n = data.len();
        let mut i: usize = 12;
        while i < n
            invariant
                12 <= i <= n,
                n == data@.len(),
                px@ == data@.subrange(12, i as int),
            decreases n - i,
        {
            px.push(data[i]);
            proof {
                assert(px@ =~= data@.subrange(12, i + 1));
            }
            i += 1;
        }
        Ok((w, h, px))
    }
}

/// Reads the little-endian 32-bit value at offset `off`.
fn read_le32(data: &[u8], off: usize) -> (r: u32)
    requires
        off + 4 <= data@.len(),
    ensures
        r == le32(data@, off as int),
{
    (data[off] as u32)
        + (data[off + 1] as u32) * 0x100
        + (data[off + 2] as u32) * 0x10000
        + (data[off + 3] as u32) * 0x1000000
}

/// An input command sent through the shell.
pub enum Input {
    /// `shell:input swipe x1 y1 x2 y2 duration`
    Swipe { p1: (u32, u32), p2: (i32, i32), duration_ms: u64 },
    /// `shell:input keyevent <keycode>`
    Keyevent(String),
}

impl Input {
    /// The full request line sent over the wire.
    pub fn raw_command(&self) -> (r: String)
        ensures
            match self {
                Input::Swipe { p1, p2, duration_ms } => r@ == "shell:input swipe "@
                    + dec_digits(p1.0 as int) + " "@ + dec_digits(p1.1 as int) + " "@
                    + dec_int(p2.0 as int) + " "@ + dec_int(p2.1 as int) + " "@
                    + dec_digits(*duration_ms as int),
                Input::Keyevent(k) => r@ == "shell:input keyevent "@ + k@,
            },
    {
        match self {
            Input::Swipe { p1, p2, duration_ms } => {
                let mut s = String::new();
                s.append("shell:input swipe ");
                let part = u64_to_string(p1.0 as u64);
                s.append(part.as_str());
                s.append(" ");
                let part = u64_to_string(p1.1 as u64);
                s.append(part.as_str());
                s.append(" ");
                let part = i64_to_string(p2.0 as i64);
                s.append(part.as_str());
                s.append(" ");
                let part = i64_to_string(p2.1 as i64);
                s.append(part.as_str());
                s.append(" ");
                let part = u64_to_string(*duration_ms);
                s.append(part.as_str());
                s
            }
            Input::Keyevent(k) => {
                let mut s = String::new();
                s.append("shell:input keyevent ");
                s.append(k.as_str());
                s
            }
        }
    }
}

/// A whitespace character, as the device listing separates its fields.
pub open spec fn is_ws_char(c: char) -> bool {
    c == ' ' || c == '\t' || c == '\n' || c == '\r'
}

/// The first position at or after `i` holding a non-whitespace character,
/// or the end of the text.
pub open spec fn skip_ws(s: Seq<char>, i: int) -> int
    decreases s.len() - i,
{
    if !(0 <= i < s.len()) {
        i
    } else if is_ws_char(s[i]) {
        skip_ws(s, i + 1)
    } else {
        i
    }
}

/// The first position at or after `i` holding whitespace, or the end of
/// the text: the end of the token starting at `i`.
pub open spec fn token_end(s: Seq<char>, i: int) -> int
    decreases s.len() - i,
{
    if !(0 <= i < s.len()) {
        i
    } else if is_ws_char(s[i]) {
        i
    } else {
        token_end(s, i + 1)
    }
}

/// `skip_ws` stays within the text and lands on the next non-whitespace
/// character.
pub proof fn lemma_skip_ws(s: Seq<char>, i: int)
    requires
        0 <= i <= s.len(),
    ensures
        i <= skip_ws(s, i) <= s.len(),
        forall|j: int| i <= j < skip_ws(s, i) ==> is_ws_char(#[trigger] s[j]),
        skip_ws(s, i) < s.len() ==> !is_ws_char(s[skip_ws(s, i)]),
    decreases s.len() - i,
{
    if i < s.len() && is_ws_char(s[i]) {
        lemma_skip_ws(s, i + 1);
    }
}

/// `token_end` stays within the text, moves past at least nothing, and
/// delimits a run of non-whitespace.
pub proof fn lemma_token_end(s: Seq<char>, i: int)
    requires
        0 <= i <= s.len(),
    ensures
        i <= token_end(s, i) <= s.len(),
        forall|j: int| i <= j < token_end(s, i) ==> !is_ws_char(#[trigger] s[j]),
        token_end(s, i) < s.len() ==> is_ws_char(s[token_end(s, i)]),
    decreases s.len() - i,
{
    if i < s.len() && !is_ws_char(s[i]) {
        lemma_token_end(s, i + 1);
    }
}

/// The first colon at or after `i`, or `-1`.
pub open spec fn find_colon(tok: Seq<char>, i: int) -> int
    decreases tok.len() - i,
{
    if !(0 <= i < tok.len()) {
        -1
    } else if tok[i] == ':' {
        i
    } else {
        find_colon(tok, i + 1)
    }
}

/// Splits a token holding exactly one colon into key and value; `None` for
/// any other number of colons.
pub open spec fn split_pair(tok: Seq<char>) -> Option<(Seq<char>, Seq<char>)> {
    let c = find_colon(tok, 0);
    if c < 0 {
        None
    } else if find_colon(tok, c + 1) >= 0 {
        None
    } else {
        Some((tok.subrange(0, c), tok.subrange(c + 1, tok.len() as int)))
    }
}

/// The key-value pairs among the tokens from position `i` on: each token
/// with exactly one colon contributes a pair, in order; other tokens are
/// dropped, as the listing parser does.
pub open spec fn parse_pairs(s: Seq<char>, i: int) -> Seq<(Seq<char>, Seq<char>)>
    decreases s.len() - i,
        when 0 <= i <= s.len()
    via parse_pairs_decreases
{
    let j = skip_ws(s, i);
    if j >= s.len() {
        Seq::empty()
    } else {
        let e = token_end(s, j);
        let rest = parse_pairs(s, e);
        match split_pair(s.subrange(j, e)) {
            Some(kv) => seq![kv] + rest,
            None => rest,
        }
    }
}

#[via_fn]
proof fn parse_pairs_decreases(s: Seq<char>, i: int) {
    lemma_skip_ws(s, i);
    let j = skip_ws(s, i);
    if j < s.len() {
        lemma_token_end(s, j);
        assert(token_end(s, j) > j);
    }
}

/// The parse of one device listing line: the serial, then the literal
/// token `device`, then the key-value pairs; `None` when the first two
/// tokens are missing or the second is not `device`.
pub open spec fn parse_device_info(s: Seq<char>) -> Option<(Seq<char>, Seq<(Seq<char>, Seq<char>)>)> {
    let j1 = skip_ws(s, 0);
    if j1 >= s.len() {
        None
    } else {
        let e1 = token_end(s, j1);
        let j2 = skip_ws(s, e1);
        if j2 >= s.len() {
            None
        } else {
            let e2 = token_end(s, j2);
            if s.subrange(j2, e2) != "device"@ {
                None
            } else {
                Some((s.subrange(j1, e1), parse_pairs(s, e2)))
            }
        }
    }
}

/// One line of the server's device listing: the serial and the key-value
/// pairs that follow the `device` state.
#[derive(Debug, Clone, PartialEq, Eq)]
pub struct DeviceInfo {
    pub serial: String,
    pub info: Vec<(String, String)>,
}

impl DeviceInfo {
    /// Parses a listing line of the shape
    /// `serial\tdevice key1:value1 key2:value2 ...`.
    pub fn parse(line: &str) -> (r: AdbResult<DeviceInfo>)
        ensures
            match r {
                Ok(info) => match parse_device_info(line@) {
                    Some((serial, pairs)) => {
                        &&& info.serial@ == serial
                        &&& info.info@.len() == pairs.len()
                        &&& forall|k: int| 0 <= k < pairs.len()
                            ==> (#[trigger] info.info@[k]).0@ == pairs[k].0
                                && info.info@[k].1@ == pairs[k].1
                    },
                    None => false,
                },
                Err(_) => parse_device_info(line@) is None,
            },
    {
        let n = line.unicode_len();
        let j1 = skip_ws_exec(line, 0);
        if j1 >= n {
            return Err(AdbError::DeviceInfoParseError(String::new()));
        }
        let e1 = token_end_exec(line, j1);
        let serial = line.substring_char(j1, e1).to_owned();
        let j2 = skip_ws_exec(line, e1);
        if j2 >= n {
            return Err(AdbError::DeviceInfoParseError(String::new()));
        }
        let e2 = token_end_exec(line, j2);
        if !token_is_device(line, j2, e2) {
            return Err(AdbError::DeviceInfoParseError(String::new()));
        }
        let ghost full: Seq<(Seq<char>, Seq<char>)> = parse_pairs(line@, e2 as int);
        let mut info: Vec<(String, String)> = Vec::new();
        let mut cur: usize = e2;
        let mut done = false;
        while !done
            invariant
                n == line@.len(),
                cur <= n,
                full == parse_pairs(line@, e2 as int),
                0 <= e2 <= n,
                parse_pairs(line@, cur as int) == full.subrange(info@.len() as int, full.len() as int),
                info@.len() <= full.len(),
                forall|k: int| 0 <= k < info@.len()
                    ==> (#[trigger] info@[k]).0@ == full[k].0 && info@[k].1@ == full[k].1,
                done ==> info@.len() == full.len(),
            decreases n - cur, (if done { 0int } else { 1int }),
        {
            let j = skip_ws_exec(line, cur);
            proof {
                lemma_skip_ws(line@, cur as int);
            }
            if j >= n {
                proof {
                    assert(parse_pairs(line@, cur as int) =~= Seq::<(Seq<char>, Seq<char>)>::empty());
                    assert(full.subrange(info@.len() as int, full.len() as int).len() == 0);
                    assert(info@.len() == full.len());
                }
                done = true;
                continue;
            }
            let e = token_end_exec(line, j);
            proof {
                lemma_token_end(line@, j as int);
            }
            let colon = find_colon_exec(line, j, e);
            let ghost tok: Seq<char> = line@.subrange(j as int, e as int);
            match colon {
                Some(c) => {
                    let key = line.substring_char(j, c).to_owned();
                    let value = line.substring_char(c + 1, e).to_owned();
                    proof {
                        let sc = find_colon(tok, 0);
                        assert(split_pair(tok) == Some((tok.subrange(0, sc),
                            tok.subrange(sc + 1, tok.len() as int))));
                        assert(sc == c - j);
                        assert(tok.subrange(0, sc) =~= line@.subrange(j as int, c as int));
                        assert(tok.subrange(sc + 1, tok.len() as int)
                            =~= line@.subrange(c + 1, e as int));
                        assert(key@ =~= tok.subrange(0, sc));
                        assert(value@ =~= tok.subrange(sc + 1, tok.len() as int));
                        assert(parse_pairs(line@, cur as int)
                            == seq![(key@, value@)] + parse_pairs(line@, e as int));
                        let m = info@.len() as int;
                        let suffix = parse_pairs(line@, e as int);
                        let ll = full.len() as int;
                        assert(full.subrange(m, ll).len() == 1 + suffix.len());
                        assert(ll - m >= 1);
                        assert(full.subrange(m, ll)[0] == (key@, value@));
                        assert(full.subrange(m, ll)[0] == full[m]);
                        assert(full[m] == (key@, value@));
                        assert forall|t: int| 0 <= t < suffix.len()
                            implies suffix[t] == full[m + 1 + t] by {
                            assert(suffix[t] == (seq![(key@, value@)] + suffix)[t + 1]);
                            assert((seq![(key@, value@)] + suffix)[t + 1]
                                == full.subrange(m, ll)[t + 1]);
                            assert(full.subrange(m, ll)[t + 1] == full[m + 1 + t]);
                        }
                        assert(suffix =~= full.subrange(m + 1, ll));
                    }
                    info.push((key, value));
                }
                None => {
                    proof {
                        assert(split_pair(tok) is None);
                        assert(parse_pairs(line@, cur as int) == parse_pairs(line@, e as int));
                    }
                }
            }
            cur = e;
        }
        Ok(DeviceInfo { serial, info })
    }
}

/// Computes `skip_ws`.
pub(crate) fn skip_ws_exec(s: &str, i: usize) -> (r: usize)
    requires
        i <= s@.len(),
    ensures
        r == skip_ws(s@, i as int),
        i <= r <= s@.len(),
{
    let n = s.unicode_len();
    let mut cur = i;
    while cur < n
        invariant
            n == s@.len(),
            i <= cur <= n,
            skip_ws(s@, i as int) == skip_ws(s@, cur as int),
        decreases n - cur,
    {
        let c = s.get_char(cur);
        if !(c == ' ' || c == '\t' || c == '\n' || c == '\r') {
            return cur;
        }
        cur += 1;
    }
    cur
}

/// Computes `token_end`.
pub(crate) fn token_end_exec(s: &str, i: usize) -> (r: usize)
    requires
        i <= s@.len(),
    ensures
        r == token_end(s@, i as int),
        i <= r <= s@.len(),
{
    let n = s.unicode_len();
    let mut cur = i;
    while cur < n
        invariant
            n == s@.len(),
            i <= cur <= n,
            token_end(s@, i as int) == token_end(s@, cur as int),
        decreases n - cur,
    {
        let c = s.get_char(cur);
        if c == ' ' || c == '\t' || c == '\n' || c == '\r' {
            return cur;
        }
        cur += 1;
    }
    cur
}

/// Whether the token at `[j, e)` is the literal `device`.
fn token_is_device(s: &str, j: usize, e: usize) -> (r: bool)
    requires
        j <= e <= s@.len(),
    ensures
        r == (s@.subrange(j as int, e as int) == "device"@),
{
    proof {
        reveal_strlit("device");
    }
    if e - j != 6 {
        proof {
            assert(s@.subrange(j as int, e as int).len() != "device"@.len());
        }
        return false;
    }
    let r = s.get_char(j) == 'd' && s.get_char(j + 1) == 'e' && s.get_char(j + 2) == 'v'
        && s.get_char(j + 3) == 'i' && s.get_char(j + 4) == 'c' && s.get_char(j + 5) == 'e';
    proof {
        if r {
            assert(s@.subrange(j as int, e as int) =~= "device"@);
        } else {
            assert(s@.subrange(j as int, e as int) != "device"@) by {
                if s@.subrange(j as int, e as int) == "device"@ {
                    assert(s@[j as int] == "device"@[0]);
                    assert(s@[j + 1] == "device"@[1]);
                    assert(s@[j + 2] == "device"@[2]);
                    assert(s@[j + 3] == "device"@[3]);
                    assert(s@[j + 4] == "device"@[4]);
                    assert(s@[j + 5] == "device"@[5]);
                }
            }
        }
    }
    r
}

/// Finds the position of the colon in `[j, e)` when there is exactly one.
fn find_colon_exec(s: &str, j: usize, e: usize) -> (r: Option<usize>)
    requires
        j <= e <= s@.len(),
    ensures
        ({
            let tok = s@.subrange(j as int, e as int);
            match r {
                Some(c) => {
                    &&& j <= c < e
                    &&& find_colon(tok, 0) == c - j
                    &&& find_colon(tok, c - j + 1) == -1
                    &&& split_pair(tok).is_some()
                },
                None => split_pair(tok) is None,
            }
        }),
    {
        let ghost tok: Seq<char> = s@.subrange(j as int, e as int);
        let mut first: Option<usize> = None;
        let mut cur = j;
        while cur < e
            invariant
                j <= cur <= e <= s@.len(),
                tok == s@.subrange(j as int, e as int),
                match first {
                    Some(c) => {
                        &&& j <= c < cur
                        &&& find_colon(tok, 0) == c - j
                        &&& forall|k: int| c - j < k < cur - j ==> tok[k] != ':'
                    },
                    None => forall|k: int| 0 <= k < cur - j ==> tok[k] != ':',
                },
            decreases e - cur,
        {
            let c = s.get_char(cur);
            proof {
                assert(tok[cur - j] == s@[cur as int]);
            }
            if c == ':' {
                match first {
                    Some(_) => {
                        proof {
                            lemma_find_colon_hits(tok, find_colon(tok, 0) + 1, cur - j);
                        }
                        return None;
                    }
                    None => {
                        proof {
                            lemma_find_colon_hits(tok, 0, cur - j);
                        }
                        first = Some(cur);
                    }
                }
            }
            cur += 1;
        }
        proof {
            match first {
                Some(c) => {
                    lemma_find_colon_misses(tok, c - j + 1, tok.len() as int);
                }
                None => {
                    lemma_find_colon_misses(tok, 0, tok.len() as int);
                }
            }
        }
        match first {
            Some(c) => Some(c),
            None => None,
        }
    }

/// Between `i` and a position `m` with no colon in `[i, m)`, `find_colon`
/// from `i` equals `find_colon` from `m`; with a colon at `m` it is `m`.
proof fn lemma_find_colon_hits(tok: Seq<char>, i: int, m: int)
    requires
        0 <= i <= m < tok.len(),
        forall|k: int| i <= k < m ==> tok[k] != ':',
        tok[m] == ':',
    ensures
        find_colon(tok, i) == m,
    decreases m - i,
{
    if i < m {
        lemma_find_colon_hits(tok, i + 1, m);
    }
}

/// With no colon from `i` to the end, `find_colon` reports none.
proof fn lemma_find_colon_misses(tok: Seq<char>, i: int, e: int)
    requires
        0 <= i,
        e == tok.len(),
        forall|k: int| i <= k < e ==> tok[k] != ':',
    ensures
        find_colon(tok, i) == -1,
    decreases e - i,
{
    if i < e {
        lemma_find_colon_misses(tok, i + 1, e);
    }
}

/// The identity of a device, addressed by serial number; the live
/// connection that carries its commands is held by the caller.
pub struct Device {
    serial: String,
}

impl Device {
    /// The device's serial number.
    pub closed spec fn spec_serial(&self) -> Seq<char> {
        self.serial@
    }

    pub fn new(serial: String) -> (r: Self)
        ensures
            r.spec_serial() == serial@,
    {
        Device { serial }
    }

    pub fn serial(&self) -> (r: String)
        ensures
            r@ == self.spec_serial(),
    {
        self.serial.clone()
    }
}

} // verus!
