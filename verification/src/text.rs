//! Small text renderers: decimal and hex numbers, trimming, joining, and the
//! compact renderings the detail pane uses.
use vstd::prelude::*;
use vstd::string::StringExecFns;
use vstd::string::StrSliceExecFns;

verus! {

/// Appends one character to a string.
///
/// Trusted: `String::push` appends `c` at the end of the string, as std documents.
#[verifier::external_body]
pub(crate) fn push_char(s: &mut String, c: char)
    ensures
        final(s)@ == old(s)@.push(c),
{
    s.push(c);
}

// ---------- decimal numbers ----------

/// The decimal digit for `d` (0..=9).
pub open spec fn digit_char(d: nat) -> char {
    if d == 0 { '0' }
    else if d == 1 { '1' }
    else if d == 2 { '2' }
    else if d == 3 { '3' }
    else if d == 4 { '4' }
    else if d == 5 { '5' }
    else if d == 6 { '6' }
    else if d == 7 { '7' }
    else if d == 8 { '8' }
    else { '9' }
}

/// The decimal rendering of `n`, without leading zeros ("0" for zero).
pub open spec fn decimal(n: nat) -> Seq<char>
    decreases n,
{
    if n < 10 {
        seq![digit_char(n)]
    } else {
        decimal(n / 10).push(digit_char(n % 10))
    }
}

/// A run of `n` zeros.
pub open spec fn zeros(n: nat) -> Seq<char> {
    Seq::new(n, |i: int| '0')
}

/// `d` left-padded with zeros to at least `width` characters.
pub open spec fn zero_pad(d: Seq<char>, width: nat) -> Seq<char> {
    if d.len() >= width {
        d
    } else {
        zeros((width - d.len()) as nat) + d
    }
}

/// A signed integer rendered with sign-aware zero padding to `width`
/// characters (the minus sign counts toward the width), as `{:0width$}` does.
pub open spec fn signed_padded(v: int, width: nat) -> Seq<char> {
    if v < 0 {
        seq!['-'] + zero_pad(decimal((-v) as nat), if width >= 1 { (width - 1) as nat } else { 0 })
    } else {
        zero_pad(decimal(v as nat), width)
    }
}

fn digit_of(d: u64) -> (c: char)
    requires
        d < 10,
    ensures
        c == digit_char(d as nat),
{
    if d == 0 { '0' }
    else if d == 1 { '1' }
    else if d == 2 { '2' }
    else if d == 3 { '3' }
    else if d == 4 { '4' }
    else if d == 5 { '5' }
    else if d == 6 { '6' }
    else if d == 7 { '7' }
    else if d == 8 { '8' }
    else { '9' }
}

/// Appends the decimal rendering of `n`.
pub fn push_decimal(s: &mut String, n: u64)
    ensures
        final(s)@ == old(s)@ + decimal(n as nat),
    decreases n,
{
    if n >= 10 {
        push_decimal(s, n / 10);
    }
    push_char(s, digit_of(n % 10));
    assert(final(s)@ == old(s)@ + decimal(n as nat)) by {
        if n >= 10 {
            assert(decimal(n as nat) == decimal((n / 10) as nat).push(digit_char((n % 10) as nat)));
        }
    }
}

/// The decimal rendering of `n` (as `n.to_string()`).
pub fn decimal_string(n: u64) -> (r: String)
    ensures
        r@ == decimal(n as nat),
{
    let mut s = String::new();
    push_decimal(&mut s, n);
    assert(s@ =~= decimal(n as nat));
    s
}

/// Appends `count` zeros.
fn push_zeros(s: &mut String, count: usize)
    ensures
        final(s)@ == old(s)@ + zeros(count as nat),
{
    let mut i: usize = 0;
    while i < count
        invariant
            i <= count,
            s@ == old(s)@ + zeros(i as nat),
        decreases count - i,
    {
        push_char(s, '0');
        i = i + 1;
        assert(s@ =~= old(s)@ + zeros(i as nat));
    }
}

/// Appends `v` with sign-aware zero padding to `width` characters (as
/// `{:0width$}` renders an `i64`); a width of 0 gives the plain rendering.
pub fn push_signed_padded(s: &mut String, v: i64, width: usize)
    ensures
        final(s)@ == old(s)@ + signed_padded(v as int, width as nat),
{
    let mag: u64 = if v < 0 { (0i128 - v as i128) as u64 } else { v as u64 };
    let digits = decimal_string(mag);
    let len = digits.as_str().unicode_len();
    let target: usize = if v < 0 { if width >= 1 { width - 1 } else { 0 } } else { width };
    if v < 0 {
        push_char(s, '-');
    }
    if len < target {
        push_zeros(s, target - len);
    }
    s.append(digits.as_str());
    proof {
        let t: nat = target as nat;
        let d = decimal(mag as nat);
        if len < target {
            assert(zero_pad(d, t) == zeros((t - d.len()) as nat) + d);
        } else {
            assert(zero_pad(d, t) == d);
        }
        if v < 0 {
            assert((-(v as int)) as nat == mag as nat);
            assert(final(s)@ =~= old(s)@ + signed_padded(v as int, width as nat));
        } else {
            assert(final(s)@ =~= old(s)@ + signed_padded(v as int, width as nat));
        }
    }
}

// ---------- hex ----------

/// The lower-case hex digit for `d` (0..=15).
pub open spec fn hex_char(d: nat) -> char {
    if d < 10 { digit_char(d) }
    else if d == 10 { 'a' }
    else if d == 11 { 'b' }
    else if d == 12 { 'c' }
    else if d == 13 { 'd' }
    else if d == 14 { 'e' }
    else { 'f' }
}

/// A byte as two lower-case hex digits (`{:02x}`).
pub open spec fn hex2(b: u8) -> Seq<char> {
    seq![hex_char((b / 16) as nat), hex_char((b % 16) as nat)]
}

fn hex_digit_of(d: u8) -> (c: char)
    requires
        d < 16,
    ensures
        c == hex_char(d as nat),
{
    if d < 10 {
        digit_of(d as u64)
    } else if d == 10 { 'a' }
    else if d == 11 { 'b' }
    else if d == 12 { 'c' }
    else if d == 13 { 'd' }
    else if d == 14 { 'e' }
    else { 'f' }
}

/// Appends a byte as two lower-case hex digits.
pub fn push_hex2(s: &mut String, b: u8)
    ensures
        final(s)@ == old(s)@ + hex2(b),
{
    push_char(s, hex_digit_of(b / 16));
    push_char(s, hex_digit_of(b % 16));
    assert(final(s)@ =~= old(s)@ + hex2(b));
}


// ---------- trimming ----------

/// White space as `char::is_whitespace` defines it (the Unicode `White_Space`
/// property).
pub open spec fn is_white_space(c: char) -> bool {
    let u = c as u32;
    ||| 9 <= u <= 13
    ||| u == 0x20
    ||| u == 0x85
    ||| u == 0xA0
    ||| u == 0x1680
    ||| 0x2000 <= u <= 0x200A
    ||| u == 0x2028
    ||| u == 0x2029
    ||| u == 0x202F
    ||| u == 0x205F
    ||| u == 0x3000
}

pub fn white_space(c: char) -> (b: bool)
    ensures
        b == is_white_space(c),
{
    let u = c as u32;
    (9 <= u && u <= 13) || u == 0x20 || u == 0x85 || u == 0xA0 || u == 0x1680 || (0x2000 <= u
        && u <= 0x200A) || u == 0x2028 || u == 0x2029 || u == 0x202F || u == 0x205F || u
        == 0x3000
}

/// The first index at or after `i` that holds no white space (or the length).
pub open spec fn skip_white_space(s: Seq<char>, i: int) -> int
    decreases s.len() - i,
{
    if i < 0 || i >= s.len() || !is_white_space(s[i]) {
        i
    } else {
        skip_white_space(s, i + 1)
    }
}

/// Walking back from `j` (exclusive) to no lower than `lo`: the end just past
/// the last character that is no white space.
pub open spec fn back_over_white_space(s: Seq<char>, lo: int, j: int) -> int
    decreases j - lo,
{
    if j <= lo || j > s.len() || !is_white_space(s[j - 1]) {
        j
    } else {
        back_over_white_space(s, lo, j - 1)
    }
}

/// `s` without leading and trailing white space (as `str::trim`).
pub open spec fn trimmed(s: Seq<char>) -> Seq<char> {
    let a = skip_white_space(s, 0);
    s.subrange(a, back_over_white_space(s, a, s.len() as int))
}

/// `s` without leading and trailing white space.
pub fn trim(s: &str) -> (r: String)
    ensures
        r@ == trimmed(s@),
{
    let n = s.unicode_len();
    let mut i: usize = 0;
    while i < n && white_space(s.get_char(i))
        invariant
            0 <= i <= n,
            n == s@.len(),
            skip_white_space(s@, 0) == skip_white_space(s@, i as int),
        decreases n - i,
    {
        i = i + 1;
    }
    let mut j: usize = n;
    while j > i && white_space(s.get_char(j - 1))
        invariant
            i <= j <= n,
            n == s@.len(),
            back_over_white_space(s@, i as int, n as int) == back_over_white_space(
                s@,
                i as int,
                j as int,
            ),
        decreases j - i,
    {
        j = j - 1;
    }
    String::from_str(s.substring_char(i, j))
}

// ---------- trailing characters ----------

/// Walking back from `j`: the end just past the last character that is not `c`.
pub open spec fn back_over(s: Seq<char>, c: char, j: int) -> int
    decreases j,
{
    if j <= 0 || j > s.len() || s[j - 1] != c {
        j
    } else {
        back_over(s, c, j - 1)
    }
}

/// `s` with every trailing `c` removed (as `str::trim_end_matches(c)`).
pub open spec fn strip_trailing(s: Seq<char>, c: char) -> Seq<char> {
    s.take(back_over(s, c, s.len() as int))
}

/// `s` with every trailing `c` removed.
pub fn strip_trailing_char(s: &str, c: char) -> (r: String)
    ensures
        r@ == strip_trailing(s@, c),
{
    let n = s.unicode_len();
    let mut j: usize = n;
    while j > 0 && s.get_char(j - 1) == c
        invariant
            j <= n,
            n == s@.len(),
            back_over(s@, c, n as int) == back_over(s@, c, j as int),
        decreases j,
    {
        j = j - 1;
    }
    String::from_str(s.substring_char(0, j))
}

/// One coordinate of a placement, from its four-decimal rendering (`{:.4}`):
/// trailing zeros and then the trailing point removed, and "0" where nothing
/// (or only a sign) is left.
pub open spec fn compact_fixed(s: Seq<char>) -> Seq<char> {
    let t = strip_trailing(strip_trailing(s, '0'), '.');
    if t.len() == 0 || t == seq!['-'] {
        seq!['0']
    } else {
        t
    }
}

pub fn compact_fixed_string(s: &str) -> (r: String)
    ensures
        r@ == compact_fixed(s@),
{
    let a = strip_trailing_char(s, '0');
    let t = strip_trailing_char(a.as_str(), '.');
    let n = t.as_str().unicode_len();
    if n == 0 || (n == 1 && t.as_str().get_char(0) == '-') {
        let mut z = String::new();
        push_char(&mut z, '0');
        assert(z@ =~= seq!['0']);
        proof {
            if n == 1 {
                assert(t@ =~= seq!['-']);
            }
        }
        z
    } else {
        proof {
            if t@ == seq!['-'] {
                assert(t@.len() == 1);
            }
        }
        t
    }
}

/// Three placement coordinates (each rendered `{:.4}`), compacted and joined
/// with ", ".
pub open spec fn compact_triple(x: Seq<char>, y: Seq<char>, z: Seq<char>) -> Seq<char> {
    compact_fixed(x) + ", "@ + compact_fixed(y) + ", "@ + compact_fixed(z)
}

pub fn compact_triple_string(x: &str, y: &str, z: &str) -> (r: String)
    ensures
        r@ == compact_triple(x@, y@, z@),
{
    let mut r = compact_fixed_string(x);
    r.append(", ");
    r.append(compact_fixed_string(y).as_str());
    r.append(", ");
    r.append(compact_fixed_string(z).as_str());
    r
}

// ---------- kind names ----------

pub open spec fn is_kind_separator(c: char) -> bool {
    c == '(' || c == ' ' || c == '{'
}

fn is_separator_char(c: char) -> (b: bool)
    ensures
        b == is_kind_separator(c),
{
    c == '(' || c == ' ' || c == '{'
}

/// The first index at or after `i` that holds '(', ' ' or '{' (or the length).
pub open spec fn kind_end(s: Seq<char>, i: int) -> int
    decreases s.len() - i,
{
    if i < 0 || i >= s.len() || is_kind_separator(s[i]) {
        i
    } else {
        kind_end(s, i + 1)
    }
}

/// The variant name at the front of a `Debug` rendering: everything before the
/// first '(', ' ' or '{'.
pub open spec fn kind_name(debug: Seq<char>) -> Seq<char> {
    debug.take(kind_end(debug, 0))
}

pub fn kind_name_string(debug: &str) -> (r: String)
    ensures
        r@ == kind_name(debug@),
{
    let n = debug.unicode_len();
    let mut i: usize = 0;
    while i < n && !is_separator_char(debug.get_char(i))
        invariant
            0 <= i <= n,
            n == debug@.len(),
            kind_end(debug@, 0) == kind_end(debug@, i as int),
        decreases n - i,
    {
        i = i + 1;
    }
    String::from_str(debug.substring_char(0, i))
}

// ---------- joining ----------

/// The parts joined with `sep` between neighbours.
pub open spec fn joined(parts: Seq<Seq<char>>, sep: Seq<char>) -> Seq<char>
    decreases parts.len(),
{
    if parts.len() == 0 {
        Seq::empty()
    } else if parts.len() == 1 {
        parts[0]
    } else {
        joined(parts.drop_last(), sep) + sep + parts.last()
    }
}

pub open spec fn strings_view(v: Seq<String>) -> Seq<Seq<char>> {
    v.map_values(|s: String| s@)
}

/// The strings joined with `sep` (as `[String]::join`).
pub fn join_strings(parts: &Vec<String>, sep: &str) -> (r: String)
    ensures
        r@ == joined(strings_view(parts@), sep@),
{
    let mut r = String::new();
    let ghost all = strings_view(parts@);
    let mut i: usize = 0;
    while i < parts.len()
        invariant
            i <= parts.len(),
            all == strings_view(parts@),
            r@ == joined(all.take(i as int), sep@),
        decreases parts.len() - i,
    {
        if i > 0 {
            r.append(sep);
        }
        r.append(parts[i].as_str());
        proof {
            let next = all.take(i + 1);
            assert(next.drop_last() =~= all.take(i as int));
            assert(next.last() == parts@[i as int]@);
            if i == 0 {
                assert(r@ =~= next[0]);
            }
        }
        i = i + 1;
    }
    assert(all.take(parts.len() as int) =~= all);
    r
}

} // verus!
