//! Text: what players type, and how numbers are written.

use vstd::prelude::*;
use vstd::string::*;

verus! {

/// `String::push` appends one character to the end.
pub assume_specification[ String::push ](s: &mut String, c: char)
    ensures
        final(s)@ == old(s)@.push(c),
;

/// A control character: the codes 0 to 31 and 127 to 159.
pub open spec fn control(c: char) -> bool {
    c <= '\u{1f}' || ('\u{7f}' <= c && c <= '\u{9f}')
}

/// A character that counts as white space.
pub open spec fn white(c: char) -> bool {
    ||| ('\u{9}' <= c && c <= '\u{d}')
    ||| c == '\u{20}'
    ||| c == '\u{85}'
    ||| c == '\u{a0}'
    ||| c == '\u{1680}'
    ||| ('\u{2000}' <= c && c <= '\u{200a}')
    ||| c == '\u{2028}'
    ||| c == '\u{2029}'
    ||| c == '\u{202f}'
    ||| c == '\u{205f}'
    ||| c == '\u{3000}'
}

pub fn is_control(c: char) -> (b: bool)
    ensures
        b == control(c),
{
    c <= '\u{1f}' || ('\u{7f}' <= c && c <= '\u{9f}')
}

pub fn is_white(c: char) -> (b: bool)
    ensures
        b == white(c),
{
    ('\u{9}' <= c && c <= '\u{d}') || c == '\u{20}' || c == '\u{85}' || c == '\u{a0}' || c
        == '\u{1680}' || ('\u{2000}' <= c && c <= '\u{200a}') || c == '\u{2028}' || c == '\u{2029}'
        || c == '\u{202f}' || c == '\u{205f}' || c == '\u{3000}'
}

/// `s` without its control characters.
pub open spec fn printable(s: Seq<char>) -> Seq<char>
    decreases s.len(),
{
    if s.len() == 0 {
        seq![]
    } else {
        let rest = printable(s.drop_last());
        if control(s.last()) {
            rest
        } else {
            rest.push(s.last())
        }
    }
}

/// `s` without the white space it starts with.
pub open spec fn trim_start(s: Seq<char>) -> Seq<char>
    decreases s.len(),
{
    if s.len() > 0 && white(s.first()) {
        trim_start(s.drop_first())
    } else {
        s
    }
}

/// `s` without the white space it ends with.
pub open spec fn trim_end(s: Seq<char>) -> Seq<char>
    decreases s.len(),
{
    if s.len() > 0 && white(s.last()) {
        trim_end(s.drop_last())
    } else {
        s
    }
}

pub open spec fn trim(s: Seq<char>) -> Seq<char> {
    trim_end(trim_start(s))
}

/// The characters of `s` that can be printed.
fn printable_chars(s: &str) -> (v: Vec<char>)
    ensures
        v@ == printable(s@),
{
    let mut v: Vec<char> = Vec::new();
    for c in it: s.chars()
        invariant
            it.seq() == s@,
            v@ == printable(s@.take(it.index() as int)),
    {
        let ghost i = it.index();
        assert(s@.take(i + 1).drop_last() =~= s@.take(i as int));
        if !is_control(c) {
            v.push(c);
        }
    }
    assert(s@.take(s@.len() as int) =~= s@);
    v
}

/// All characters of `s`.
pub fn chars_of(s: &str) -> (v: Vec<char>)
    ensures
        v@ == s@,
{
    let mut v: Vec<char> = Vec::new();
    for c in it: s.chars()
        invariant
            it.seq() == s@,
            v@ == s@.take(it.index() as int),
    {
        assert(s@.take(it.index() + 1) =~= s@.take(it.index() as int).push(c));
        v.push(c);
    }
    assert(s@.take(s@.len() as int) =~= s@);
    v
}

/// Where the trimmed part of `s` starts and ends.
fn trim_bounds(s: &Vec<char>) -> (r: (usize, usize))
    ensures
        r.0 <= r.1 <= s.len(),
        s@.subrange(r.0 as int, r.1 as int) == trim(s@),
{
    let mut a: usize = 0;
    assert(s@.subrange(0, s.len() as int) =~= s@);
    while a < s.len() && is_white(s[a])
        invariant
            a <= s.len(),
            trim_start(s@.subrange(a as int, s.len() as int)) == trim_start(s@),
        decreases s.len() - a,
    {
        assert(s@.subrange(a as int, s.len() as int).drop_first() =~= s@.subrange(
            a + 1,
            s.len() as int,
        ));
        a = a + 1;
    }
    let mut b: usize = s.len();
    while b > a && is_white(s[b - 1])
        invariant
            a <= b <= s.len(),
            trim_end(s@.subrange(a as int, b as int)) == trim(s@),
        decreases b,
    {
        assert(s@.subrange(a as int, b as int).drop_last() =~= s@.subrange(a as int, b - 1));
        b = b - 1;
    }
    (a, b)
}

/// The string of the characters `from` to `to`.
pub fn string_of(s: &Vec<char>, from: usize, to: usize) -> (r: String)
    requires
        from <= to <= s.len(),
    ensures
        r@ == s@.subrange(from as int, to as int),
{
    let mut r = String::new();
    let mut i: usize = from;
    assert(s@.subrange(from as int, from as int) =~= seq![]);
    while i < to
        invariant
            from <= i <= to <= s.len(),
            r@ == s@.subrange(from as int, i as int),
        decreases to - i,
    {
        assert(s@.subrange(from as int, i + 1) =~= s@.subrange(from as int, i as int).push(
            s@[i as int],
        ));
        r.push(s[i]);
        i = i + 1;
    }
    r
}

/// What is left of a chat line: printable, trimmed and cut to `max` characters.
pub open spec fn chat_text(text: Seq<char>, max: nat) -> Seq<char> {
    let t = trim(printable(text));
    if t.len() < max {
        t
    } else {
        t.take(max as int)
    }
}

/// Cleans a chat line; `None` if nothing printable remains.
pub fn sanitize_chat(text: &str, max: usize) -> (r: Option<String>)
    ensures
        match r {
            Some(s) => s@ == chat_text(text@, max as nat) && s@.len() > 0,
            None => chat_text(text@, max as nat).len() == 0,
        },
{
    let v = printable_chars(text);
    let (a, b) = trim_bounds(&v);
    let end: usize = if b - a < max {
        b
    } else {
        a + max
    };
    assert(v@.subrange(a as int, end as int) =~= chat_text(text@, max as nat));
    if end > a {
        Some(string_of(&v, a, end))
    } else {
        None
    }
}

/// What a name is after cleaning: printable and trimmed.
pub open spec fn name_text(raw: Seq<char>) -> Seq<char> {
    trim(printable(raw))
}

/// Cleans a name; `None` unless 1 to `max` characters remain. A longer name is
/// refused, not cut: it identifies the player.
pub fn sanitize_name(raw: &str, max: usize) -> (r: Option<String>)
    ensures
        match r {
            Some(s) => s@ == name_text(raw@) && 1 <= s@.len() <= max,
            None => !(1 <= name_text(raw@).len() <= max),
        },
{
    let v = printable_chars(raw);
    let (a, b) = trim_bounds(&v);
    assert(name_text(raw@).len() == b - a);
    if 1 <= b - a && b - a <= max {
        Some(string_of(&v, a, b))
    } else {
        None
    }
}

/// Trims a line; `None` if nothing is left.
pub fn trimmed(text: &str) -> (r: Option<String>)
    ensures
        match r {
            Some(s) => s@ == trim(text@) && s@.len() > 0,
            None => trim(text@).len() == 0,
        },
{
    let v = chars_of(text);
    let (a, b) = trim_bounds(&v);
    assert(v@.subrange(a as int, b as int).len() == b - a);
    if b > a {
        Some(string_of(&v, a, b))
    } else {
        None
    }
}

// ---- Numbers ---------------------------------------------------------------

pub open spec fn digit(d: int) -> char {
    seq!['0', '1', '2', '3', '4', '5', '6', '7', '8', '9'][d]
}

pub fn digit_char(d: u64) -> (c: char)
    requires
        d < 10,
    ensures
        c == digit(d as int),
{
    match d {
        0 => '0',
        1 => '1',
        2 => '2',
        3 => '3',
        4 => '4',
        5 => '5',
        6 => '6',
        7 => '7',
        8 => '8',
        _ => '9',
    }
}

/// `n` in decimal.
pub open spec fn decimal(n: nat) -> Seq<char>
    decreases n,
{
    if n < 10 {
        seq![digit(n as int)]
    } else {
        decimal(n / 10).push(digit((n % 10) as int))
    }
}

/// Appends `n` in decimal.
pub fn push_decimal(s: &mut String, n: u64)
    ensures
        final(s)@ == old(s)@ + decimal(n as nat),
    decreases n,
{
    if n < 10 {
        s.push(digit_char(n));
        assert(s@ =~= old(s)@ + decimal(n as nat));
    } else {
        push_decimal(s, n / 10);
        let ghost mid = s@;
        s.push(digit_char(n % 10));
        assert(s@ =~= old(s)@ + decimal(n as nat));
    }
}

/// Control characters are those below the space, and those from delete up to
/// but not with the no-break space. They are all taken out, and nothing else.
pub proof fn law_control_characters_are_taken_out(s: Seq<char>, c: char)
    ensures
        control(c) <==> (c as int) < 32 || 127 <= (c as int) < 160,
        printable(s) == s.filter(|d: char| !((d as int) < 32 || 127 <= (d as int) < 160)),
    decreases s.len(),
{
    reveal(Seq::filter);
    if s.len() > 0 {
        law_control_characters_are_taken_out(s.drop_last(), c);
    }
    assert(printable(s) =~= s.filter(|d: char| !((d as int) < 32 || 127 <= (d as int) < 160)));
}

proof fn lemma_trim_start(s: Seq<char>) -> (a: int)
    ensures
        0 <= a <= s.len(),
        trim_start(s) == s.skip(a),
        forall|i: int| 0 <= i < a ==> white(#[trigger] s[i]),
        a < s.len() ==> !white(s[a]),
    decreases s.len(),
{
    if s.len() > 0 && white(s.first()) {
        let b = lemma_trim_start(s.drop_first());
        assert(s.drop_first().skip(b) =~= s.skip(b + 1));
        assert forall|i: int| 0 <= i < b + 1 implies white(#[trigger] s[i]) by {
            if i > 0 {
                assert(s[i] == s.drop_first()[i - 1]);
            }
        }
        b + 1
    } else {
        assert(s.skip(0) =~= s);
        0
    }
}

proof fn lemma_trim_end(s: Seq<char>) -> (b: int)
    ensures
        0 <= b <= s.len(),
        trim_end(s) == s.take(b),
        forall|i: int| b <= i < s.len() ==> white(#[trigger] s[i]),
        b > 0 ==> !white(s[b - 1]),
    decreases s.len(),
{
    if s.len() > 0 && white(s.last()) {
        let b = lemma_trim_end(s.drop_last());
        assert(s.drop_last().take(b) =~= s.take(b));
        assert forall|i: int| b <= i < s.len() implies white(#[trigger] s[i]) by {
            if i < s.len() - 1 {
                assert(s[i] == s.drop_last()[i]);
            }
        }
        b
    } else {
        assert(s.take(s.len() as int) =~= s);
        s.len() as int
    }
}

/// `a..b` is what is left of `s` without the white at its ends.
pub open spec fn core_of(s: Seq<char>, a: int, b: int) -> bool {
    &&& 0 <= a <= b <= s.len()
    &&& forall|i: int| 0 <= i < a ==> white(#[trigger] s[i])
    &&& forall|i: int| b <= i < s.len() ==> white(#[trigger] s[i])
    &&& a < b ==> !white(s[a]) && !white(s[b - 1])
}

/// Trimming takes white off both ends, as much as there is, and leaves the
/// middle as it is.
pub proof fn law_trimming_leaves_the_middle(s: Seq<char>)
    ensures
        exists|a: int, b: int| #[trigger] core_of(s, a, b) && trim(s) == s.subrange(a, b),
        white(' ') && white('\u{9}') && white('\u{a}') && !white('a') && !white('0'),
        trim(s).len() > 0 ==> !white(trim(s).first()) && !white(trim(s).last()),
{
    let a = lemma_trim_start(s);
    let t = s.skip(a);
    let n = lemma_trim_end(t);
    assert(t.take(n) =~= s.subrange(a, a + n));
    assert forall|i: int| a + n <= i < s.len() implies white(#[trigger] s[i]) by {
        assert(s[i] == t[i - a]);
    }
    if n > 0 {
        assert(t[n - 1] == s[a + n - 1]);
        if a < s.len() {
            assert(t[0] == s[a]);
        }
    }
    assert(core_of(s, a, a + n));
}

/// What is said has no control characters and no white at its start, and is
/// cut off at the limit; a name is never cut.
pub proof fn law_chat_is_clean_and_short(text: Seq<char>, max: nat)
    ensures
        chat_text(text, max).len() <= max,
        trim(printable(text)).len() <= max ==> chat_text(text, max) == trim(printable(text)),
        trim(printable(text)).len() > max ==> chat_text(text, max) == trim(
            printable(text),
        ).subrange(0, max as int),
        name_text(text) == trim(printable(text)),
{
    let t = trim(printable(text));
    if t.len() <= max {
        assert(t.take(t.len() as int) =~= t);
    }
}

/// The number that digits spell.
pub open spec fn number_of(s: Seq<char>) -> int
    decreases s.len(),
{
    if s.len() == 0 {
        0
    } else {
        10 * number_of(s.drop_last()) + (s.last() as int - '0' as int)
    }
}

/// A number is written with the digits that spell it, without a leading zero.
pub proof fn law_numbers_are_spelled(n: nat)
    ensures
        number_of(decimal(n)) == n,
        decimal(n).len() >= 1,
        n > 0 ==> decimal(n).first() != '0',
        forall|i: int| 0 <= i < decimal(n).len() ==> '0' <= #[trigger] decimal(n)[i] <= '9',
    decreases n,
{
    let s = decimal(n);
    if n < 10 {
        assert(s.drop_last() =~= seq![]);
        assert(number_of(s.drop_last()) == 0);
        assert(digit(n as int) as int == '0' as int + n);
    } else {
        law_numbers_are_spelled(n / 10);
        assert(s.drop_last() =~= decimal(n / 10));
        assert(digit((n % 10) as int) as int == '0' as int + n % 10);
        assert(s.first() == decimal(n / 10).first());
    }
}

} // verus!
