//! Text building and cleaning: numerals, durations, trimming and clipping.

use vstd::prelude::*;
use vstd::string::StringExecFns;

verus! {

/// `String::push` appends the given character to the end of the string.
pub assume_specification[ String::push ](s: &mut String, c: char)
    ensures
        final(s)@ == old(s)@.push(c),
;

/// The upper case form that `str::to_uppercase` gives a text.
pub uninterp spec fn uppercase(s: Seq<char>) -> Seq<char>;

/// `str::to_uppercase` maps a text to its upper case form, which depends on the text alone.
/// Which form that is for a given text is left unsaid: it is the Unicode mapping.
pub assume_specification[ str::to_uppercase ](s: &str) -> (res: String)
    ensures
        res@ == uppercase(s@),
;

/// The texts of a list of strings.
pub open spec fn texts(strings: Seq<String>) -> Seq<Seq<char>> {
    Seq::new(strings.len(), |i: int| strings[i]@)
}

/// The text of a string, if there is one.
pub open spec fn opt_text(string: Option<String>) -> Option<Seq<char>> {
    match string {
        Some(s) => Some(s@),
        None => None,
    }
}

// ---------------------------------------------------------------------------
// Numerals
// ---------------------------------------------------------------------------

/// The character of a decimal digit.
pub open spec fn digit_char(d: nat) -> char {
    (d + 48) as char
}

/// The decimal numeral of `n`, without leading zeros.
pub open spec fn decimal(n: nat) -> Seq<char>
    decreases n,
{
    if n < 10 {
        seq![digit_char(n)]
    } else {
        decimal(n / 10).push(digit_char(n % 10))
    }
}

/// The decimal numeral of `n` with a comma before every group of three digits.
pub open spec fn grouped(n: nat) -> Seq<char>
    decreases n,
{
    if n < 1000 {
        decimal(n)
    } else {
        grouped(n / 1000) + seq![
            ',',
            digit_char(n / 100 % 10),
            digit_char(n / 10 % 10),
            digit_char(n % 10),
        ]
    }
}

fn digit(d: u64) -> (c: char)
    requires
        d < 10,
    ensures
        c == digit_char(d as nat),
{
    (48 + d as u8) as char
}

/// Writes `n` in decimal.
pub fn decimal_text(n: u64) -> (res: String)
    ensures
        res@ == decimal(n as nat),
    decreases n,
{
    if n < 10 {
        let mut out = String::new();
        out.push(digit(n));
        assert(out@ == decimal(n as nat));
        out
    } else {
        let mut out = decimal_text(n / 10);
        out.push(digit(n % 10));
        out
    }
}

/// Writes a point total in decimal, with commas between groups of three digits.
pub fn format_points(n: u32) -> (res: String)
    ensures
        res@ == grouped(n as nat),
    decreases n,
{
    if n < 1000 {
        decimal_text(n as u64)
    } else {
        let mut out = format_points(n / 1000);
        out.push(',');
        out.push(digit((n / 100 % 10) as u64));
        out.push(digit((n / 10 % 10) as u64));
        out.push(digit((n % 10) as u64));
        assert(out@ == grouped(n as nat));
        out
    }
}

/// A number of seconds in words: whole minutes from one minute up.
pub open spec fn duration_words(secs: nat) -> Seq<char> {
    if secs == 1 {
        "1 second"@
    } else if secs < 60 {
        decimal(secs) + " seconds"@
    } else if secs / 60 == 1 {
        "1 minute"@
    } else {
        decimal(secs / 60) + " minutes"@
    }
}

/// Writes a duration in words.
pub fn format_duration_secs(secs: u64) -> (res: String)
    ensures
        res@ == duration_words(secs as nat),
{
    if secs < 60 {
        if secs == 1 {
            String::from_str("1 second")
        } else {
            decimal_text(secs).concat(" seconds")
        }
    } else {
        let mins: u64 = secs / 60;
        if mins == 1 {
            String::from_str("1 minute")
        } else {
            decimal_text(mins).concat(" minutes")
        }
    }
}

/// Taking the commas out of a grouped numeral leaves the plain numeral.
pub proof fn grouped_without_commas_is_decimal(n: nat)
    ensures
        grouped(n).filter(|c: char| c != ',') == decimal(n),
    decreases n,
{
    let keep = |c: char| c != ',';
    if n < 1000 {
        lemma_decimal_has_no_comma(n);
        lemma_filter_all(decimal(n), keep);
    } else {
        grouped_without_commas_is_decimal(n / 1000);
        let tail = seq![
            ',',
            digit_char(n / 100 % 10),
            digit_char(n / 10 % 10),
            digit_char(n % 10),
        ];
        Seq::filter_distributes_over_add(grouped(n / 1000), tail, keep);
        reveal_with_fuel(Seq::filter, 5);
        let t3 = tail.drop_last();
        let t2 = t3.drop_last();
        let t1 = t2.drop_last();
        assert(t1 == seq![',']);
        assert(t1.drop_last() == Seq::<char>::empty());
        assert(tail.filter(keep) == seq![
            digit_char(n / 100 % 10),
            digit_char(n / 10 % 10),
            digit_char(n % 10),
        ]);
        assert(n / 10 / 10 / 10 == n / 1000);
        assert(decimal(n) == decimal(n / 10).push(digit_char(n % 10)));
        assert(decimal(n / 10) == decimal(n / 10 / 10).push(digit_char(n / 10 % 10)));
        assert(decimal(n / 10 / 10) == decimal(n / 10 / 10 / 10).push(
            digit_char(n / 10 / 10 % 10),
        ));
        assert(n / 100 == n / 10 / 10);
        assert(grouped(n).filter(keep) == decimal(n));
    }
}

proof fn lemma_decimal_has_no_comma(n: nat)
    ensures
        forall|i: int| 0 <= i < decimal(n).len() ==> decimal(n)[i] != ',',
    decreases n,
{
    if n >= 10 {
        lemma_decimal_has_no_comma(n / 10);
        assert(digit_char(n % 10) as u32 == n % 10 + 48);
        let head = decimal(n / 10);
        assert forall|i: int| 0 <= i < decimal(n).len() implies decimal(n)[i] != ',' by {
            if i < head.len() {
                assert(decimal(n)[i] == head[i]);
            }
        }
    } else {
        assert(digit_char(n) as u32 == n + 48);
    }
}

proof fn lemma_filter_all(s: Seq<char>, keep: spec_fn(char) -> bool)
    requires
        forall|i: int| 0 <= i < s.len() ==> keep(#[trigger] s[i]),
    ensures
        s.filter(keep) == s,
    decreases s.len(),
{
    reveal(Seq::filter);
    if s.len() > 0 {
        lemma_filter_all(s.drop_last(), keep);
        assert(s.drop_last().push(s.last()) == s);
    }
}

/// Different numbers have different numerals.
pub proof fn numerals_tell_numbers_apart(a: nat, b: nat)
    requires
        decimal(a) == decimal(b),
    ensures
        a == b,
    decreases a,
{
    lemma_decimal_len(a);
    lemma_decimal_len(b);
    if a < 10 && b < 10 {
        assert(decimal(a)[0] == digit_char(a));
        assert(decimal(b)[0] == digit_char(b));
        assert(digit_char(a) as int == a + 48);
        assert(digit_char(b) as int == b + 48);
    } else if a >= 10 && b >= 10 {
        assert(decimal(a).last() == digit_char(a % 10));
        assert(decimal(b).last() == digit_char(b % 10));
        assert(digit_char(a % 10) as int == a % 10 + 48);
        assert(digit_char(b % 10) as int == b % 10 + 48);
        assert(decimal(a).drop_last() =~= decimal(a / 10));
        assert(decimal(b).drop_last() =~= decimal(b / 10));
        numerals_tell_numbers_apart(a / 10, b / 10);
    }
}

/// A numeral starts with a digit, and numbers from ten on have more than one.
proof fn lemma_decimal_len(n: nat)
    ensures
        n < 10 ==> decimal(n).len() == 1,
        n >= 10 ==> decimal(n).len() >= 2,
        48 <= decimal(n)[0] as int <= 57,
    decreases n,
{
    if n >= 10 {
        lemma_decimal_len(n / 10);
    }
}

/// A numeral starts with a digit.
pub proof fn numerals_start_with_a_digit(n: nat)
    ensures
        decimal(n).len() > 0,
        '0' <= decimal(n)[0] <= '9',
{
    lemma_decimal_len(n);
}

// ---------------------------------------------------------------------------
// Cleaning
// ---------------------------------------------------------------------------

/// The control characters: the C0 range, delete, and the C1 range.
pub open spec fn is_control_char(c: char) -> bool {
    c as u32 <= 0x1f || 0x7f <= c as u32 <= 0x9f
}

/// The characters with the Unicode property `White_Space`.
pub open spec fn is_space_char(c: char) -> bool {
    let v = c as u32;
    ||| 0x09 <= v <= 0x0d
    ||| v == 0x20
    ||| v == 0x85
    ||| v == 0xa0
    ||| v == 0x1680
    ||| 0x2000 <= v <= 0x200a
    ||| v == 0x2028
    ||| v == 0x2029
    ||| v == 0x202f
    ||| v == 0x205f
    ||| v == 0x3000
}

/// A text without its leading and trailing white space.
pub open spec fn trimmed(s: Seq<char>) -> Seq<char>
    decreases s.len(),
{
    if s.len() == 0 {
        s
    } else if is_space_char(s.first()) {
        trimmed(s.drop_first())
    } else if is_space_char(s.last()) {
        trimmed(s.drop_last())
    } else {
        s
    }
}

/// The first `max` characters of a text, or all of it where it is shorter.
pub open spec fn at_most(s: Seq<char>, max: nat) -> Seq<char> {
    if s.len() <= max {
        s
    } else {
        s.take(max as int)
    }
}

/// Tells whether `c` is a control character.
pub fn is_control(c: char) -> (res: bool)
    ensures
        res == is_control_char(c),
{
    let v: u32 = c as u32;
    v <= 0x1f || (0x7f <= v && v <= 0x9f)
}

/// Tells whether `c` is white space.
pub fn is_space(c: char) -> (res: bool)
    ensures
        res == is_space_char(c),
{
    let v: u32 = c as u32;
    (0x09 <= v && v <= 0x0d) || v == 0x20 || v == 0x85 || v == 0xa0 || v == 0x1680 || (0x2000 <= v
        && v <= 0x200a) || v == 0x2028 || v == 0x2029 || v == 0x202f || v == 0x205f || v == 0x3000
}

/// The characters of a text.
pub fn chars_of(s: &str) -> (res: Vec<char>)
    ensures
        res@ == s@,
{
    let mut out: Vec<char> = Vec::new();
    for c in it: s.chars()
        invariant
            out@ == it.seq().take(it.index() as int),
            it.seq() == s@,
    {
        out.push(c);
    }
    out
}

/// The text of the characters at `lo..hi`.
pub fn text_of(chars: &Vec<char>, lo: usize, hi: usize) -> (res: String)
    requires
        lo <= hi <= chars@.len(),
    ensures
        res@ == chars@.subrange(lo as int, hi as int),
{
    let mut out = String::new();
    let mut i: usize = lo;
    while i < hi
        invariant
            lo <= i <= hi <= chars@.len(),
            out@ == chars@.subrange(lo as int, i as int),
        decreases hi - i,
    {
        out.push(chars[i]);
        i += 1;
        assert(out@ == chars@.subrange(lo as int, i as int));
    }
    out
}

/// The bounds of a text within its white space.
fn trim_bounds(chars: &Vec<char>) -> (res: (usize, usize))
    ensures
        res.0 <= res.1 <= chars@.len(),
        chars@.subrange(res.0 as int, res.1 as int) == trimmed(chars@),
{
    let mut lo: usize = 0;
    let mut hi: usize = chars.len();
    assert(chars@.subrange(0, chars@.len() as int) == chars@);
    while lo < hi && is_space(chars[lo])
        invariant
            lo <= hi == chars@.len(),
            trimmed(chars@.subrange(lo as int, hi as int)) == trimmed(chars@),
        decreases hi - lo,
    {
        assert(chars@.subrange(lo as int, hi as int).drop_first() == chars@.subrange(
            lo + 1,
            hi as int,
        ));
        lo += 1;
    }
    while lo < hi && is_space(chars[hi - 1])
        invariant
            lo <= hi <= chars@.len(),
            lo < hi ==> !is_space_char(chars@[lo as int]),
            trimmed(chars@.subrange(lo as int, hi as int)) == trimmed(chars@),
        decreases hi - lo,
    {
        assert(chars@.subrange(lo as int, hi as int).drop_last() == chars@.subrange(
            lo as int,
            hi - 1,
        ));
        hi -= 1;
    }
    (lo, hi)
}

/// Removes leading and trailing white space.
pub fn trim(s: &str) -> (res: String)
    ensures
        res@ == trimmed(s@),
{
    let chars = chars_of(s);
    let (lo, hi) = trim_bounds(&chars);
    text_of(&chars, lo, hi)
}

/// Trims a text, then cuts it to at most `max` characters.
pub fn clip(s: &str, max: usize) -> (res: String)
    ensures
        res@ == at_most(trimmed(s@), max as nat),
{
    let chars = chars_of(s);
    let (lo, hi) = trim_bounds(&chars);
    if hi - lo <= max {
        text_of(&chars, lo, hi)
    } else {
        assert(chars@.subrange(lo as int, lo + max) == chars@.subrange(lo as int, hi as int).take(
            max as int,
        ));
        text_of(&chars, lo, lo + max)
    }
}

/// Trimming again changes nothing.
pub proof fn trimmed_is_idempotent(s: Seq<char>)
    ensures
        trimmed(trimmed(s)) == trimmed(s),
    decreases s.len(),
{
    if s.len() > 0 {
        if is_space_char(s.first()) {
            trimmed_is_idempotent(s.drop_first());
        } else if is_space_char(s.last()) {
            trimmed_is_idempotent(s.drop_last());
        }
    }
}

/// Trimming never lengthens a text.
pub proof fn trimmed_is_no_longer(s: Seq<char>)
    ensures
        trimmed(s).len() <= s.len(),
    decreases s.len(),
{
    if s.len() > 0 {
        if is_space_char(s.first()) {
            trimmed_is_no_longer(s.drop_first());
        } else if is_space_char(s.last()) {
            trimmed_is_no_longer(s.drop_last());
        }
    }
}

// ---------------------------------------------------------------------------
// Player names
// ---------------------------------------------------------------------------

/// The most characters that a player's name keeps.
pub const NAME_LEN: usize = 20;

/// The characters of a text that are not control characters.
pub open spec fn printable(s: Seq<char>) -> Seq<char> {
    s.filter(|c: char| !is_control_char(c))
}

/// The name under which a player is seated: at most `NAME_LEN` printable characters, trimmed,
/// and `Player` where nothing is left.
pub open spec fn seated_name(raw: Seq<char>) -> Seq<char> {
    let name = trimmed(at_most(printable(raw), NAME_LEN as nat));
    if name.len() == 0 {
        "Player"@
    } else {
        name
    }
}

/// Cleans the name that a client asks for.
pub fn sanitize_name(name: &str) -> (res: String)
    ensures
        res@ == seated_name(name@),
{
    let chars = chars_of(name);
    let mut kept: Vec<char> = Vec::new();
    let mut i: usize = 0;
    reveal(Seq::filter);
    assert(chars@.take(0).filter(|c: char| !is_control_char(c)) == Seq::<char>::empty());
    while i < chars.len()
        invariant
            i <= chars@.len(),
            chars@ == name@,
            kept@ == at_most(printable(chars@.take(i as int)), NAME_LEN as nat),
        decreases chars@.len() - i,
    {
        let c = chars[i];
        proof {
            reveal(Seq::filter);
            assert(chars@.take(i + 1).drop_last() == chars@.take(i as int));
        }
        if !is_control(c) && kept.len() < NAME_LEN {
            kept.push(c);
        }
        i += 1;
        assert(kept@ == at_most(printable(chars@.take(i as int)), NAME_LEN as nat));
    }
    assert(chars@.take(chars@.len() as int) == chars@);
    let (lo, hi) = trim_bounds(&kept);
    if lo == hi {
        String::from_str("Player")
    } else {
        text_of(&kept, lo, hi)
    }
}

} // verus!
