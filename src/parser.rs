//! The painter protocol's request grammar, one line at a time.
use vstd::prelude::*;

verus! {

/// A request of the painter protocol.
#[derive(Debug)]
pub enum Request {
    Help,
    Size,
    Login { username: String, password: String },
    GetPixel { x: u16, y: u16 },
    SetPixel { x: u16, y: u16, rgba: u32 },
    Done,
}

/// What a request says, with its strings as character sequences.
pub enum RequestView {
    Help,
    Size,
    Login { username: Seq<char>, password: Seq<char> },
    GetPixel { x: u16, y: u16 },
    SetPixel { x: u16, y: u16, rgba: u32 },
    Done,
}

impl View for Request {
    type V = RequestView;

    open spec fn view(&self) -> RequestView {
        match self {
            Request::Help => RequestView::Help,
            Request::Size => RequestView::Size,
            Request::Login { username, password } => RequestView::Login {
                username: username@,
                password: password@,
            },
            Request::GetPixel { x, y } => RequestView::GetPixel { x: *x, y: *y },
            Request::SetPixel { x, y, rgba } => RequestView::SetPixel { x: *x, y: *y, rgba: *rgba },
            Request::Done => RequestView::Done,
        }
    }
}

pub open spec fn is_digit(ch: char) -> bool {
    48 <= (ch as u32) <= 57
}

pub open spec fn is_lower_hex_letter(ch: char) -> bool {
    97 <= (ch as u32) <= 102
}

/// A digit of a colour: `0`-`9` or lower-case `a`-`f`.
pub open spec fn is_hex_digit(ch: char) -> bool {
    is_digit(ch) || is_lower_hex_letter(ch)
}

/// ASCII letter or digit.
pub open spec fn is_alnum(ch: char) -> bool {
    is_digit(ch) || 97 <= (ch as u32) <= 122 || 65 <= (ch as u32) <= 90
}

pub open spec fn hex_digit_value(ch: char) -> nat {
    if is_digit(ch) {
        (ch as u32 - 48) as nat
    } else {
        (ch as u32 - 87) as nat
    }
}

/// The number that a run of digits in base `base` denotes.
pub open spec fn digits_value(s: Seq<char>, base: nat) -> nat
    decreases s.len(),
{
    if s.len() == 0 {
        0
    } else {
        digits_value(s.drop_last(), base) * base + hex_digit_value(s.last())
    }
}

/// End of the run of decimal digits that starts at `i`.
pub open spec fn digit_run_end(c: Seq<char>, i: int) -> int
    decreases c.len() - i,
{
    if 0 <= i < c.len() && is_digit(c[i]) {
        digit_run_end(c, i + 1)
    } else {
        i
    }
}

/// End of the run of ASCII letters and digits that starts at `i`.
pub open spec fn alnum_run_end(c: Seq<char>, i: int) -> int
    decreases c.len() - i,
{
    if 0 <= i < c.len() && is_alnum(c[i]) {
        alnum_run_end(c, i + 1)
    } else {
        i
    }
}

pub open spec fn starts_with(c: Seq<char>, tag: Seq<char>) -> bool {
    tag.len() <= c.len() && c.subrange(0, tag.len() as int) == tag
}

/// A `u16` in decimal at `i`: at least one digit, all digits of the run
/// taken, the value at most 65535. Gives the value and where it ends.
pub open spec fn parse_u16_at(c: Seq<char>, i: int) -> Option<(u16, int)> {
    let e = digit_run_end(c, i);
    if e == i || digits_value(c.subrange(i, e), 10) > 65535 {
        None
    } else {
        Some((digits_value(c.subrange(i, e), 10) as u16, e))
    }
}

/// Six lower-case hex digits at `i`.
pub open spec fn six_hex_at(c: Seq<char>, i: int) -> bool {
    0 <= i && i + 6 <= c.len() && forall|k: int| i <= k < i + 6 ==> #[trigger] is_hex_digit(c[k])
}

/// `PX <x> <y>` or `PX <x> <y> <hex6>`.
pub open spec fn spec_parse_pixel(c: Seq<char>) -> Option<(RequestView, int)> {
    if !starts_with(c, seq!['P', 'X', ' ']) {
        None
    } else {
        match parse_u16_at(c, 3) {
            None => None,
            Some((x, i1)) => if !(i1 < c.len() && c[i1] == ' ') {
                None
            } else {
                match parse_u16_at(c, i1 + 1) {
                    None => None,
                    Some((y, i2)) => if i2 == c.len() {
                        Some((RequestView::GetPixel { x, y }, i2))
                    } else if c[i2] == ' ' && six_hex_at(c, i2 + 1) {
                        Some((
                            RequestView::SetPixel {
                                x,
                                y,
                                rgba: digits_value(c.subrange(i2 + 1, i2 + 7), 16) as u32,
                            },
                            i2 + 7,
                        ))
                    } else {
                        None
                    },
                }
            },
        }
    }
}

/// `LOGIN <user> <password>`, both made of ASCII letters and digits.
pub open spec fn spec_parse_login(c: Seq<char>) -> Option<(RequestView, int)> {
    let e1 = alnum_run_end(c, 6);
    let e2 = alnum_run_end(c, e1 + 1);
    if starts_with(c, seq!['L', 'O', 'G', 'I', 'N', ' ']) && e1 > 6 && e1 < c.len() && c[e1] == ' '
        && e2 > e1 + 1 {
        Some((RequestView::Login { username: c.subrange(6, e1), password: c.subrange(e1 + 1, e2) }, e2))
    } else {
        None
    }
}

/// The request at the start of line `c` and how many characters it takes,
/// trying in turn a pixel request, `DONE`, `SIZE`, `LOGIN` and `HELP`.
pub open spec fn spec_parse_request(c: Seq<char>) -> Option<(RequestView, int)> {
    if spec_parse_pixel(c) is Some {
        spec_parse_pixel(c)
    } else if starts_with(c, seq!['D', 'O', 'N', 'E']) {
        Some((RequestView::Done, 4))
    } else if starts_with(c, seq!['S', 'I', 'Z', 'E']) {
        Some((RequestView::Size, 4))
    } else if spec_parse_login(c) is Some {
        spec_parse_login(c)
    } else if starts_with(c, seq!['H', 'E', 'L', 'P']) {
        Some((RequestView::Help, 4))
    } else {
        None
    }
}

fn char_is(line: &str, len: usize, i: usize, ch: char) -> (r: bool)
    requires
        len == line@.len(),
    ensures
        r == (i < line@.len() && line@[i as int] == ch),
{
    i < len && line.get_char(i) == ch
}

fn has_tag4(line: &str, len: usize, a: char, b: char, c: char, d: char) -> (r: bool)
    requires
        len == line@.len(),
    ensures
        r == starts_with(line@, seq![a, b, c, d]),
{
    let r = char_is(line, len, 0, a) && char_is(line, len, 1, b) && char_is(line, len, 2, c) && char_is(
        line,
        len,
        3,
        d,
    );
    if r {
        assert(line@.subrange(0, 4) =~= seq![a, b, c, d]);
    } else if 4 <= len {
        assert(line@.subrange(0, 4)[0] == line@[0]);
        assert(line@.subrange(0, 4)[1] == line@[1]);
        assert(line@.subrange(0, 4)[2] == line@[2]);
        assert(line@.subrange(0, 4)[3] == line@[3]);
    }
    r
}

fn has_px_tag(line: &str, len: usize) -> (r: bool)
    requires
        len == line@.len(),
    ensures
        r == starts_with(line@, seq!['P', 'X', ' ']),
{
    let r = char_is(line, len, 0, 'P') && char_is(line, len, 1, 'X') && char_is(line, len, 2, ' ');
    if r {
        assert(line@.subrange(0, 3) =~= seq!['P', 'X', ' ']);
    } else if 3 <= len {
        assert(line@.subrange(0, 3)[0] == line@[0]);
        assert(line@.subrange(0, 3)[1] == line@[1]);
        assert(line@.subrange(0, 3)[2] == line@[2]);
    }
    r
}

fn has_login_tag(line: &str, len: usize) -> (r: bool)
    requires
        len == line@.len(),
    ensures
        r == starts_with(line@, seq!['L', 'O', 'G', 'I', 'N', ' ']),
{
    let r = has_tag4(line, len, 'L', 'O', 'G', 'I') && char_is(line, len, 4, 'N') && char_is(line, len, 5, ' ');
    let ghost t = seq!['L', 'O', 'G', 'I', 'N', ' '];
    if r {
        assert(line@.subrange(0, 4) =~= seq!['L', 'O', 'G', 'I']);
        assert(line@.subrange(0, 6) =~= t);
    } else if 6 <= len {
        proof {
            assert(line@.subrange(0, 6)[4] == line@[4]);
            assert(line@.subrange(0, 6)[5] == line@[5]);
            if line@.subrange(0, 6) == t {
                assert(line@.subrange(0, 4) =~= seq!['L', 'O', 'G', 'I']);
            }
        }
    }
    r
}

fn exec_is_digit(ch: char) -> (r: bool)
    ensures
        r == is_digit(ch),
{
    48 <= (ch as u32) && (ch as u32) <= 57
}

fn exec_is_hex_digit(ch: char) -> (r: bool)
    ensures
        r == is_hex_digit(ch),
{
    let v = ch as u32;
    (48 <= v && v <= 57) || (97 <= v && v <= 102)
}

fn exec_is_alnum(ch: char) -> (r: bool)
    ensures
        r == is_alnum(ch),
{
    let v = ch as u32;
    (48 <= v && v <= 57) || (97 <= v && v <= 122) || (65 <= v && v <= 90)
}

fn exec_hex_digit_value(ch: char) -> (r: u32)
    requires
        is_hex_digit(ch),
    ensures
        r == hex_digit_value(ch),
        r < 16,
{
    let v = ch as u32;
    if 48 <= v && v <= 57 {
        v - 48
    } else {
        v - 87
    }
}

/// Parses a decimal `u16` at `i`, as `parse_u16_at` says.
fn parse_u16(line: &str, len: usize, i: usize) -> (r: Option<(u16, usize)>)
    requires
        len == line@.len(),
        i <= len,
    ensures
        r matches Some((v, e)) ==> parse_u16_at(line@, i as int) == Some((v, e as int)),
        r is None ==> parse_u16_at(line@, i as int) is None,
{
    let ghost c = line@;
    let mut j: usize = i;
    let mut v: u32 = 0;
    while j < len && exec_is_digit(line.get_char(j))
        invariant
            len == c.len(),
            c == line@,
            i <= j <= len,
            digit_run_end(c, i as int) == digit_run_end(c, j as int),
            forall|k: int| i <= k < j ==> #[trigger] is_digit(c[k]),
            v as nat == if digits_value(c.subrange(i as int, j as int), 10) < 65536 {
                digits_value(c.subrange(i as int, j as int), 10)
            } else {
                65536
            },
        decreases len - j,
    {
        let d = exec_hex_digit_value(line.get_char(j));
        assert(c.subrange(i as int, j as int + 1).drop_last() =~= c.subrange(i as int, j as int));
        if v < 65536 {
            let n = v * 10 + d;
            v = if n < 65536 { n } else { 65536 };
        }
        j = j + 1;
    }
    if j == i || v > 65535 {
        None
    } else {
        Some((v as u16, j))
    }
}

/// End of the run of ASCII letters and digits that starts at `i`.
fn alnum_end(line: &str, len: usize, i: usize) -> (r: usize)
    requires
        len == line@.len(),
        i <= len,
    ensures
        r == alnum_run_end(line@, i as int),
        i <= r <= len,
{
    let mut j: usize = i;
    while j < len && exec_is_alnum(line.get_char(j))
        invariant
            len == line@.len(),
            i <= j <= len,
            alnum_run_end(line@, i as int) == alnum_run_end(line@, j as int),
        decreases len - j,
    {
        j = j + 1;
    }
    j
}

/// Six lower-case hex digits at `i` and their value, if they are there.
fn parse_hex6(line: &str, len: usize, i: usize) -> (r: Option<u32>)
    requires
        len == line@.len(),
    ensures
        r matches Some(v) ==> six_hex_at(line@, i as int) && v as nat == digits_value(
            line@.subrange(i as int, i + 6),
            16,
        ),
        r is None ==> !six_hex_at(line@, i as int),
{
    let ghost c = line@;
    if i > len || len - i < 6 {
        return None;
    }
    let mut k: usize = 0;
    let mut v: u32 = 0;
    while k < 6
        invariant
            len == c.len(),
            c == line@,
            i + 6 <= len,
            k <= 6,
            forall|m: int| i <= m < i + k ==> #[trigger] is_hex_digit(c[m]),
            v as nat == digits_value(c.subrange(i as int, i + k), 16),
            v < pow16(k as nat),
        decreases 6 - k,
    {
        let ch = line.get_char(i + k);
        if !exec_is_hex_digit(ch) {
            return None;
        }
        let d = exec_hex_digit_value(ch);
        assert(c.subrange(i as int, i + k + 1).drop_last() =~= c.subrange(i as int, i + k));
        assert(v * 16 + d < pow16(k as nat + 1));
        proof {
            lemma_pow16_values();
            lemma_pow16_monotonic(k as nat + 1, 6);
        }
        v = v * 16 + d;
        k = k + 1;
    }
    Some(v)
}

pub open spec fn pow16(k: nat) -> nat
    decreases k,
{
    if k == 0 {
        1
    } else {
        16 * pow16((k - 1) as nat)
    }
}

proof fn lemma_pow16_values()
    ensures
        pow16(5) == 1048576,
        pow16(6) == 16777216,
{
    assert(pow16(0) == 1);
    assert(pow16(1) == 16);
    assert(pow16(2) == 256);
    assert(pow16(3) == 4096);
    assert(pow16(4) == 65536);
    assert(pow16(5) == 1048576);
    assert(pow16(6) == 16777216);
}

proof fn lemma_pow16_monotonic(a: nat, b: nat)
    requires
        a <= b,
    ensures
        pow16(a) <= pow16(b),
    decreases b,
{
    if a < b {
        lemma_pow16_monotonic(a, (b - 1) as nat);
    }
}

fn parse_pixel(line: &str, len: usize) -> (r: Option<(Request, usize)>)
    requires
        len == line@.len(),
    ensures
        r matches Some((q, n)) ==> spec_parse_pixel(line@) == Some((q@, n as int)),
        r is None ==> spec_parse_pixel(line@) is None,
{
    if !has_px_tag(line, len) {
        return None;
    }
    let (x, i1) = match parse_u16(line, len, 3) {
        None => return None,
        Some(p) => p,
    };
    if !char_is(line, len, i1, ' ') {
        return None;
    }
    let (y, i2) = match parse_u16(line, len, i1 + 1) {
        None => return None,
        Some(p) => p,
    };
    if i2 == len {
        return Some((Request::GetPixel { x, y }, i2));
    }
    if !char_is(line, len, i2, ' ') {
        return None;
    }
    match parse_hex6(line, len, i2 + 1) {
        None => None,
        Some(rgba) => Some((Request::SetPixel { x, y, rgba }, i2 + 7)),
    }
}

fn parse_login(line: &str, len: usize) -> (r: Option<(Request, usize)>)
    requires
        len == line@.len(),
    ensures
        r matches Some((q, n)) ==> spec_parse_login(line@) == Some((q@, n as int)),
        r is None ==> spec_parse_login(line@) is None,
{
    if !has_login_tag(line, len) {
        return None;
    }
    let e1 = alnum_end(line, len, 6);
    if e1 == 6 || !char_is(line, len, e1, ' ') {
        return None;
    }
    let e2 = alnum_end(line, len, e1 + 1);
    if e2 == e1 + 1 {
        return None;
    }
    let username = line.substring_char(6, e1).to_owned();
    let password = line.substring_char(e1 + 1, e2).to_owned();
    Some((Request::Login { username, password }, e2))
}

/// Parses the request at the start of `line`. On success gives the request
/// and the number of characters it took; characters after those are left
/// for the caller to reject.
pub fn parse_request(line: &str) -> (r: Option<(Request, usize)>)
    ensures
        r matches Some((q, n)) ==> spec_parse_request(line@) == Some((q@, n as int)),
        r is None ==> spec_parse_request(line@) is None,
{
    let len = line.unicode_len();
    if let Some(p) = parse_pixel(line, len) {
        return Some(p);
    }
    if has_tag4(line, len, 'D', 'O', 'N', 'E') {
        return Some((Request::Done, 4));
    }
    if has_tag4(line, len, 'S', 'I', 'Z', 'E') {
        return Some((Request::Size, 4));
    }
    if let Some(p) = parse_login(line, len) {
        return Some(p);
    }
    if has_tag4(line, len, 'H', 'E', 'L', 'P') {
        return Some((Request::Help, 4));
    }
    None
}

} // verus!
