use vstd::prelude::*;

use crate::adb::{AdbResult, Device, Input, ShellCommand, dec_digits, dec_int, u64_to_string,
    i64_to_string, skip_ws, token_end};

verus! {

/// A swipe direction on the screen.
pub enum Direction {
    Up,
    Down,
    Left,
    Right,
}

/// The touch panel geometry a touch agent reports when it starts:
/// contact count, panel size, pressure range, and whether the panel's axes
/// are swapped relative to the screen.
#[derive(Debug, Clone, Copy, PartialEq, Eq, Structural, Default)]
pub struct MaaTouchState {
    pub flip_xy: bool,
    pub max_contact: u32,
    pub max_x: u32,
    pub max_y: u32,
    pub max_pressure: u32,
}

/// The panel x-coordinate a `(x, y)` screen point maps to under the flip:
/// `max_y - y`, floored at zero.
pub open spec fn flip_x(max_y: int, y: int) -> int {
    if y <= max_y {
        max_y - y
    } else {
        0
    }
}

impl MaaTouchState {
    /// Builds the state from the agent's reported limits: the longer
    /// reported axis is the panel's x, and a longer second axis means the
    /// axes are swapped.
    pub fn from_info(max_contact: u32, max_size1: u32, max_size2: u32, max_pressure: u32)
        -> (r: Self)
        ensures
            r.max_contact == max_contact,
            r.max_pressure == max_pressure,
            r.flip_xy == (max_size1 <= max_size2),
            r.max_x == if max_size1 > max_size2 { max_size1 } else { max_size2 },
            r.max_y == if max_size1 > max_size2 { max_size2 } else { max_size1 },
    {
        if max_size1 > max_size2 {
            MaaTouchState {
                flip_xy: false,
                max_contact,
                max_x: max_size1,
                max_y: max_size2,
                max_pressure,
            }
        } else {
            MaaTouchState {
                flip_xy: true,
                max_contact,
                max_x: max_size2,
                max_y: max_size1,
                max_pressure,
            }
        }
    }

    /// The `d` (touch down) command line, with the coordinates swapped when
    /// the panel is flipped.
    pub fn down_command(&self, contact: u32, x: u32, y: u32, pressure: u32) -> (r: String)
        ensures
            ({
                let fx: int = if self.flip_xy { flip_x(self.max_y as int, y as int) } else {
                    x as int
                };
                let fy: int = if self.flip_xy { x as int } else { y as int };
                r@ == "d "@ + dec_digits(contact as int) + " "@ + dec_digits(fx) + " "@
                    + dec_digits(fy) + " "@ + dec_digits(pressure as int)
            }),
    {
        let (fx, fy): (u32, u32) = if self.flip_xy {
            (if y <= self.max_y { self.max_y - y } else { 0 }, x)
        } else {
            (x, y)
        };
        let mut s = String::new();
        s.append("d ");
        let part = u64_to_string(contact as u64);
        s.append(part.as_str());
        s.append(" ");
        let part = u64_to_string(fx as u64);
        s.append(part.as_str());
        s.append(" ");
        let part = u64_to_string(fy as u64);
        s.append(part.as_str());
        s.append(" ");
        let part = u64_to_string(pressure as u64);
        s.append(part.as_str());
        s
    }

    /// The `m` (touch move) command line, with the coordinates swapped when
    /// the panel is flipped; a flipped x may go negative.
    pub fn move_command(&self, contact: u32, x: i32, y: i32, pressure: u32) -> (r: String)
        ensures
            ({
                let fx: int = if self.flip_xy { self.max_y - y } else { x as int };
                let fy: int = if self.flip_xy { x as int } else { y as int };
                r@ == "m "@ + dec_digits(contact as int) + " "@ + dec_int(fx) + " "@
                    + dec_int(fy) + " "@ + dec_digits(pressure as int)
            }),
    {
        let (fx, fy): (i64, i64) = if self.flip_xy {
            (self.max_y as i64 - y as i64, x as i64)
        } else {
            (x as i64, y as i64)
        };
        let mut s = String::new();
        s.append("m ");
        let part = u64_to_string(contact as u64);
        s.append(part.as_str());
        s.append(" ");
        let part = i64_to_string(fx);
        s.append(part.as_str());
        s.append(" ");
        let part = i64_to_string(fy);
        s.append(part.as_str());
        s.append(" ");
        let part = u64_to_string(pressure as u64);
        s.append(part.as_str());
        s
    }

    /// The `u` (touch up) command line.
    pub fn up_command(&self, contact: u32) -> (r: String)
        ensures
            r@ == "u "@ + dec_digits(contact as int),
    {
        let mut s = String::new();
        s.append("u ");
        let part = u64_to_string(contact as u64);
        s.append(part.as_str());
        s
    }

    /// The `c` (commit) command line.
    pub fn commit_command(&self) -> (r: String)
        ensures
            r@ == "c"@,
    {
        let mut s = String::new();
        s.append("c");
        proof {
            assert(s@ =~= "c"@);
        }
        s
    }

    /// The `r` (reset) command line.
    pub fn reset_command(&self) -> (r: String)
        ensures
            r@ == "r"@,
    {
        let mut s = String::new();
        s.append("r");
        proof {
            assert(s@ =~= "r"@);
        }
        s
    }
}

/// An application pushed to the device and run there; callers provide the
/// transport that carries the commands these steps produce.
pub trait App: Sized {
    /// Verifies that the application is present and runnable.
    fn check(device: &Device) -> AdbResult<()>;

    /// Pushes the application to the device.
    fn push(device: &Device) -> AdbResult<()>;

    /// Ensures the application is present: push it only when the check
    /// fails, then check again.
    fn prepare(device: &Device) -> AdbResult<()> {
        if Self::check(device).is_err() {
            Self::push(device)?;
            Self::check(device)?;
        }
        Ok(())
    }

    /// Starts the application and reads its initial state.
    fn init(device: &Device) -> AdbResult<Self>;
}

/// `s` holds the character `c`.
pub open spec fn contains_char(s: Seq<char>, c: char) -> bool {
    exists|i: int| 0 <= i < s.len() && s[i] == c
}

/// A device driven over the debug bridge's socket services.
pub struct AndroidController {
    device: Device,
    width: u32,
    height: u32,
}

impl AndroidController {
    pub closed spec fn spec_serial(&self) -> Seq<char> {
        self.device.spec_serial()
    }

    pub closed spec fn spec_screen_size(&self) -> (u32, u32) {
        (self.width, self.height)
    }

    /// Wraps an already connected device whose screen size the caller has
    /// measured.
    pub fn from_device(device: Device, width: u32, height: u32) -> (r: Self)
        ensures
            r.spec_serial() == device.spec_serial(),
            r.spec_screen_size() == (width, height),
    {
        AndroidController { device, width, height }
    }

    /// The underlying device.
    pub fn device(&self) -> (r: &Device)
        ensures
            r.spec_serial() == self.spec_serial(),
    {
        &self.device
    }

    /// The screen size in pixels.
    pub fn screen_size(&self) -> (r: (u32, u32))
        ensures
            r == self.spec_screen_size(),
    {
        (self.width, self.height)
    }

    /// The key event that presses the home button.
    pub fn press_home(&self) -> (r: Input)
        ensures
            match r {
                Input::Keyevent(k) => k@ == "HOME"@,
                _ => false,
            },
    {
        Input::Keyevent(String::from_str("HOME"))
    }

    /// The key event that presses escape (key code 111).
    pub fn press_esc(&self) -> (r: Input)
        ensures
            match r {
                Input::Keyevent(k) => k@ == "111"@,
                _ => false,
            },
    {
        Input::Keyevent(String::from_str("111"))
    }

    /// The shell command that launches an application: a full
    /// `package/activity` intent starts it directly, a bare package goes
    /// through the monkey.
    pub fn launch_app(&self, intent: &str) -> (r: ShellCommand)
        requires
            intent.is_ascii(),
        ensures
            contains_char(intent@, '/')
                ==> r.spec_command() == "am start -n "@ + intent@,
            !contains_char(intent@, '/')
                ==> r.spec_command() == "monkey -p "@ + intent@ + " 1"@,
    {
        let has_slash = find_slash(intent);
        if has_slash {
            let mut s = String::new();
            s.append("am start -n ");
            s.append(intent);
            ShellCommand::new(s)
        } else {
            let mut s = String::new();
            s.append("monkey -p ");
            s.append(intent);
            s.append(" 1");
            ShellCommand::new(s)
        }
    }

    /// The shell command that force-stops an application.
    pub fn stop_app(&self, intent: &str) -> (r: ShellCommand)
        ensures
            r.spec_command() == "am force-stop "@ + intent@,
    {
        let mut s = String::new();
        s.append("am force-stop ");
        s.append(intent);
        ShellCommand::new(s)
    }
}

/// Whether an ASCII string holds a forward slash.
fn find_slash(s: &str) -> (r: bool)
    requires
        s.is_ascii(),
    ensures
        r == contains_char(s@, '/'),
{
    let bytes = s.as_bytes_vec();
    proof {
        vstd::string::is_ascii_spec_bytes(s);
    }
    let n = bytes.len();
    let mut i: usize = 0;
    while i < n
        invariant
            n == bytes@.len(),
            i <= n,
            bytes@.len() == s@.len(),
            forall|j: int| 0 <= j < s@.len() ==> #[trigger] s@[j] == bytes@[j] as char,
            forall|j: int| 0 <= j < i ==> #[trigger] s@[j] != '/',
        decreases n - i,
    {
        if bytes[i] == 47 {
            proof {
                assert(s@[i as int] == 47u8 as char);
                assert(s@[i as int] == '/');
            }
            return true;
        }
        proof {
            assert(s@[i as int] == bytes@[i as int] as char);
            assert(s@[i as int] != '/') by {
                assert(bytes@[i as int] != 47);
            }
        }
        i += 1;
    }
    false
}


/// `pat` occurs as a contiguous run inside `s`.
pub open spec fn contains_seq(s: Seq<char>, pat: Seq<char>) -> bool {
    exists|i: int| 0 <= i <= s.len() - pat.len() && #[trigger] s.subrange(i, i + pat.len()) == pat
}

/// Whether `pat` occurs at position `i` of `s`.
fn matches_at(s: &str, pat: &str, i: usize) -> (r: bool)
    requires
        i + pat@.len() <= s@.len(),
    ensures
        r == (s@.subrange(i as int, i + pat@.len()) == pat@),
{
    let n = s.unicode_len();
    let m = pat.unicode_len();
    let mut j: usize = 0;
    while j < m
        invariant
            n == s@.len(),
            m == pat@.len(),
            i + m <= n,
            j <= m,
            forall|k: int| 0 <= k < j ==> #[trigger] s@[i + k] == pat@[k],
        decreases m - j,
    {
        let sc = s.get_char(i + j);
        let pc = pat.get_char(j);
        if sc != pc {
            proof {
                assert(s@[i + j] != pat@[j as int]);
                assert(s@.subrange(i as int, i + pat@.len())[j as int] == s@[i + j]);
            }
            return false;
        }
        j += 1;
    }
    proof {
        assert forall|k: int| 0 <= k < pat@.len()
            implies s@.subrange(i as int, i + pat@.len())[k] == pat@[k] by {
            assert(s@[i + k] == pat@[k]);
        }
        assert(s@.subrange(i as int, i + pat@.len()) =~= pat@);
    }
    true
}

/// Searches `s` for `pat`.
pub fn contains_sub(s: &str, pat: &str) -> (r: bool)
    ensures
        r == contains_seq(s@, pat@),
{
    let n = s.unicode_len();
    let m = pat.unicode_len();
    if m > n {
        return false;
    }
    if m == 0 {
        proof {
            assert(s@.subrange(0, 0 + pat@.len() as int) =~= pat@);
        }
        return true;
    }
    let mut i: usize = 0;
    while i <= n - m
        invariant
            n == s@.len(),
            m == pat@.len(),
            1 <= m <= n,
            i <= n - m + 1,
            forall|k: int| 0 <= k < i ==> #[trigger] s@.subrange(k, k + pat@.len()) != pat@,
        decreases n - i,
    {
        if matches_at(s, pat, i) {
            return true;
        }
        i += 1;
    }
    false
}

/// Reads the screen state out of the power service's report: the screen is
/// on when the wakefulness line says awake.
pub fn parse_screen_on(output: &str) -> (r: bool)
    ensures
        r == contains_seq(output@, "mWakefulness=Awake"@),
{
    contains_sub(output, "mWakefulness=Awake")
}


/// The value of a decimal digit character, or 10 for anything else.
pub open spec fn digit_val(c: char) -> int {
    if '0' <= c && c <= '9' {
        c as int - 48
    } else {
        10
    }
}

/// Every character is a decimal digit, and there is at least one.
pub open spec fn all_digits(s: Seq<char>) -> bool {
    s.len() >= 1 && forall|i: int| 0 <= i < s.len() ==> digit_val(#[trigger] s[i]) < 10
}

/// The number a digit string denotes.
pub open spec fn dec_value(s: Seq<char>) -> int
    decreases s.len(),
{
    if s.len() == 0 {
        0
    } else {
        dec_value(s.drop_last()) * 10 + digit_val(s.last())
    }
}

/// Powers of ten.
pub open spec fn pow10(n: nat) -> int
    decreases n,
{
    if n == 0 {
        1
    } else {
        10 * pow10((n - 1) as nat)
    }
}

/// A digit string's value is nonnegative and below ten to its length.
pub proof fn lemma_dec_value_bound(s: Seq<char>)
    requires
        forall|i: int| 0 <= i < s.len() ==> digit_val(#[trigger] s[i]) < 10,
    ensures
        0 <= dec_value(s) < pow10(s.len()),
    decreases s.len(),
{
    if s.len() > 0 {
        lemma_dec_value_bound(s.drop_last());
        assert(0 <= digit_val(s.last()) < 10);
        assert(dec_value(s.drop_last()) * 10 + digit_val(s.last()) < pow10(s.len())) by
            (nonlinear_arith)
            requires
                0 <= dec_value(s.drop_last()) < pow10((s.len() - 1) as nat),
                pow10(s.len() as nat) == 10 * pow10((s.len() - 1) as nat),
                0 <= digit_val(s.last()) < 10;
    }
}

/// Parses the decimal number in `s[from..to]`: at most nine digits, all of
/// them decimal; `None` otherwise.
pub fn parse_number(s: &str, from: usize, to: usize) -> (r: Option<u32>)
    requires
        from <= to <= s@.len(),
    ensures
        ({
            let tok = s@.subrange(from as int, to as int);
            match r {
                Some(v) => all_digits(tok) && tok.len() <= 9 && v == dec_value(tok),
                None => !all_digits(tok) || tok.len() > 9,
            }
        }),
{
    let ghost tok: Seq<char> = s@.subrange(from as int, to as int);
    if to - from == 0 || to - from > 9 {
        return None;
    }
    let mut acc: u32 = 0;
    let mut k: usize = from;
    while k < to
        invariant
            from <= k <= to <= s@.len(),
            1 <= to - from <= 9,
            tok == s@.subrange(from as int, to as int),
            forall|i: int| 0 <= i < k - from ==> digit_val(#[trigger] tok[i]) < 10,
            acc == dec_value(tok.subrange(0, k - from)),
            0 <= acc < 1000000000,
        decreases to - k,
    {
        let c = s.get_char(k);
        let code = c as u32;
        proof {
            assert(tok[k - from] == s@[k as int]);
        }
        if code < 48 || code > 57 {
            proof {
                assert(digit_val(tok[k - from]) == 10);
            }
            return None;
        }
        let d = code - 48;
        proof {
            assert(digit_val(tok[k - from]) == d);
            let pre = tok.subrange(0, k - from);
            let nxt = tok.subrange(0, k - from + 1);
            assert(nxt.drop_last() =~= pre);
            assert(nxt.last() == tok[k - from]);
            assert(dec_value(nxt) == dec_value(pre) * 10 + d);
            lemma_dec_value_bound(pre);
            assert(pre.len() <= 8);
            assert(pow10(pre.len()) <= pow10(8)) by {
                lemma_pow10_le(pre.len(), 8);
            }
            assert(pow10(8) == 100000000) by {
                reveal_with_fuel(pow10, 10);
            }
        }
        acc = acc * 10 + d;
        k += 1;
    }
    proof {
        assert(tok.subrange(0, to - from) =~= tok);
    }
    Some(acc)
}

/// Powers of ten grow with the exponent.
proof fn lemma_pow10_le(a: nat, b: nat)
    requires
        a <= b,
    ensures
        pow10(a) <= pow10(b),
    decreases b,
{
    if a < b {
        lemma_pow10_le(a, (b - 1) as nat);
        lemma_pow10_pos((b - 1) as nat);
        assert(pow10(b) == 10 * pow10((b - 1) as nat));
        assert(pow10((b - 1) as nat) <= 10 * pow10((b - 1) as nat)) by (nonlinear_arith)
            requires pow10((b - 1) as nat) >= 1;
    } else {
        lemma_pow10_pos(a);
    }
}

/// Powers of ten are positive.
proof fn lemma_pow10_pos(n: nat)
    ensures
        pow10(n) >= 1,
    decreases n,
{
    if n > 0 {
        lemma_pow10_pos((n - 1) as nat);
    }
}

/// The parse of a touch agent's hello line `^ c s1 s2 p`: the caret token,
/// then four decimal numbers. `None` when the line has another shape.
pub open spec fn parse_info_line(s: Seq<char>) -> Option<(int, int, int, int)> {
    let j0 = skip_ws(s, 0);
    let e0 = token_end(s, j0);
    if j0 >= s.len() || s.subrange(j0, e0) != seq!['^'] {
        None
    } else {
        let j1 = skip_ws(s, e0);
        let e1 = token_end(s, j1);
        let j2 = skip_ws(s, e1);
        let e2 = token_end(s, j2);
        let j3 = skip_ws(s, e2);
        let e3 = token_end(s, j3);
        let j4 = skip_ws(s, e3);
        let e4 = token_end(s, j4);
        if j1 >= s.len() || j2 >= s.len() || j3 >= s.len() || j4 >= s.len() {
            None
        } else if !(all_digits(s.subrange(j1, e1)) && e1 - j1 <= 9
            && all_digits(s.subrange(j2, e2)) && e2 - j2 <= 9
            && all_digits(s.subrange(j3, e3)) && e3 - j3 <= 9
            && all_digits(s.subrange(j4, e4)) && e4 - j4 <= 9) {
            None
        } else {
            Some((
                dec_value(s.subrange(j1, e1)),
                dec_value(s.subrange(j2, e2)),
                dec_value(s.subrange(j3, e3)),
                dec_value(s.subrange(j4, e4)),
            ))
        }
    }
}

impl MaaTouchState {
    /// Parses the agent's hello line and builds the panel state from its
    /// four limits.
    pub fn parse_info(line: &str) -> (r: Option<MaaTouchState>)
        ensures
            match parse_info_line(line@) {
                Some((c, s1, s2, p)) => match r {
                    Some(st) => {
                        &&& st.max_contact == c
                        &&& st.max_pressure == p
                        &&& st.flip_xy == (s1 <= s2)
                        &&& st.max_x == if s1 > s2 { s1 } else { s2 }
                        &&& st.max_y == if s1 > s2 { s2 } else { s1 }
                    },
                    None => false,
                },
                None => r is None,
            },
    {
        let n = line.unicode_len();
        let j0 = crate::adb::skip_ws_exec(line, 0);
        let e0 = crate::adb::token_end_exec(line, j0);
        if j0 >= n {
            return None;
        }
        if e0 - j0 != 1 || line.get_char(j0) != '^' {
            proof {
                let tok = line@.subrange(j0 as int, e0 as int);
                if tok == seq!['^'] {
                    assert(tok.len() == 1);
                    assert(tok[0] == '^');
                    assert(line@[j0 as int] == '^');
                }
            }
            return None;
        }
        proof {
            assert(line@.subrange(j0 as int, e0 as int) =~= seq!['^']);
        }
        let j1 = crate::adb::skip_ws_exec(line, e0);
        if j1 >= n {
            return None;
        }
        let e1 = crate::adb::token_end_exec(line, j1);
        let j2 = crate::adb::skip_ws_exec(line, e1);
        if j2 >= n {
            return None;
        }
        let e2 = crate::adb::token_end_exec(line, j2);
        let j3 = crate::adb::skip_ws_exec(line, e2);
        if j3 >= n {
            return None;
        }
        let e3 = crate::adb::token_end_exec(line, j3);
        let j4 = crate::adb::skip_ws_exec(line, e3);
        if j4 >= n {
            return None;
        }
        let e4 = crate::adb::token_end_exec(line, j4);
        let max_contact = parse_number(line, j1, e1);
        let size1 = parse_number(line, j2, e2);
        let size2 = parse_number(line, j3, e3);
        let max_pressure = parse_number(line, j4, e4);
        match (max_contact, size1, size2, max_pressure) {
            (Some(c), Some(s1), Some(s2), Some(p)) => {
                Some(MaaTouchState::from_info(c, s1, s2, p))
            }
            _ => None,
        }
    }
}


/// Drops one trailing line feed, as the property reads of the shell
/// return their value with one appended.
pub fn trim_trailing_newline(s: &str) -> (r: String)
    ensures
        s@.len() > 0 && s@.last() == '\n' ==> r@ == s@.drop_last(),
        !(s@.len() > 0 && s@.last() == '\n') ==> r@ == s@,
{
    let n = s.unicode_len();
    if n > 0 && s.get_char(n - 1) == '\n' {
        let trimmed = s.substring_char(0, n - 1);
        proof {
            assert(trimmed@ =~= s@.drop_last());
        }
        trimmed.to_owned()
    } else {
        s.to_owned()
    }
}

/// The default reference screen height for scaled coordinates.
pub const DEFAULT_HEIGHT: u32 = 1080;

/// A device controller: identity, screen geometry, and the command lines
/// its operations send; callers carry them over their transport.
pub struct Controller {
    device: Device,
    width: u32,
    height: u32,
}

impl Controller {
    /// Wraps an already connected device whose screen size the caller has
    /// measured.
    pub closed spec fn spec_serial(&self) -> Seq<char> {
        self.device.spec_serial()
    }

    pub closed spec fn view(&self) -> (u32, u32) {
        (self.width, self.height)
    }

    pub fn from_device(device: Device, width: u32, height: u32) -> (r: Self)
        ensures
            r.spec_serial() == device.spec_serial(),
            r@ == (width, height),
    {
        Controller { device, width, height }
    }

    /// The screen size in pixels.
    pub fn screen_size(&self) -> (r: (u32, u32))
        ensures
            r == self@,
    {
        (self.width, self.height)
    }

    /// The underlying device.
    pub fn device(&self) -> (r: &Device)
        ensures
            r.spec_serial() == self.spec_serial(),
    {
        &self.device
    }

    /// The process command that presses the home button.
    pub fn press_home(&self) -> (r: String)
        ensures
            r@ == "shell input keyevent HOME"@,
    {
        let mut s = String::new();
        s.append("shell input keyevent HOME");
        proof {
            assert(s@ =~= "shell input keyevent HOME"@);
        }
        s
    }

    /// The process command that presses escape (key code 111).
    pub fn press_esc(&self) -> (r: String)
        ensures
            r@ == "shell input keyevent 111"@,
    {
        let mut s = String::new();
        s.append("shell input keyevent 111");
        proof {
            assert(s@ =~= "shell input keyevent 111"@);
        }
        s
    }
}

} // verus!
