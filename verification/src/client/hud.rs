//! What the panels write: the clock, coins, counts and item codes.

use vstd::prelude::*;
use vstd::string::*;

use crate::item::{InvSlot, ARMOR_START};
use crate::text::{chars_of, decimal, digit, digit_char, is_white, push_decimal, trim_start, white};

verus! {

// ---- The clock -------------------------------------------------------------

/// The hour on a clock with twelve hours.
pub open spec fn hour12(hours: int) -> int {
    if hours == 0 {
        12
    } else if hours <= 12 {
        hours
    } else {
        hours - 12
    }
}

/// "Day 3 - 8:15 AM" for a minute of the day; days count from one.
pub open spec fn minute_text(day: u32, minute: u32) -> Seq<char> {
    let hours = minute / 60;
    let minutes = minute % 60;
    "Day "@ + decimal((day + 1) as nat) + " - "@ + decimal(hour12(hours as int) as nat) + ":"@
        + seq![digit((minutes / 10) as int), digit((minutes % 10) as int)] + (if hours < 12 {
        " AM"@
    } else {
        " PM"@
    })
}

/// A tick is a second of the game.
pub open spec fn clock_text(day: u32, time: u32) -> Seq<char> {
    minute_text(day, time / 60)
}

/// Writes the day and the time of day.
pub fn format_clock(day: u32, time: u32) -> (s: String)
    requires
        day < u32::MAX,
    ensures
        s@ == clock_text(day, time),
{
    let hours: u32 = time / 3600;
    let minutes: u32 = (time % 3600) / 60;
    let h12: u32 = if hours == 0 {
        12
    } else if hours <= 12 {
        hours
    } else {
        hours - 12
    };
    let mut s = String::from_str("Day ");
    push_decimal(&mut s, day as u64 + 1);
    s.append(" - ");
    push_decimal(&mut s, h12 as u64);
    s.append(":");
    s.push(digit_char((minutes / 10) as u64));
    s.push(digit_char((minutes % 10) as u64));
    if hours < 12 {
        s.append(" AM");
    } else {
        s.append(" PM");
    }
    assert(s@ =~= clock_text(day, time));
    s
}

/// "Players: 3".
pub fn players_text(players: usize) -> (s: String)
    ensures
        s@ == "Players: "@ + decimal(players as nat),
{
    let mut s = String::from_str("Players: ");
    push_decimal(&mut s, players as u64);
    s
}

/// The status block. A text is written anew only when what it says changed.
#[derive(Debug)]
pub struct Hud {
    pub debug: bool,
    pub clock_text: String,
    /// Day and minute that the text says.
    pub clock_key: Option<(u32, u32)>,
    pub players_text: String,
    pub players_key: Option<usize>,
}

impl Hud {
    /// The texts say what their keys say.
    pub open spec fn wf(&self) -> bool {
        &&& match self.clock_key {
            Some((day, minute)) => self.clock_text@ == minute_text(day, minute),
            None => true,
        }
        &&& match self.players_key {
            Some(n) => self.players_text@ == "Players: "@ + decimal(n as nat),
            None => true,
        }
    }

    pub fn new() -> (h: Hud)
        ensures
            h.wf(),
            !h.debug,
    {
        Hud {
            debug: false,
            clock_text: String::new(),
            clock_key: None,
            players_text: String::new(),
            players_key: None,
        }
    }

    /// Brings the texts up to date.
    pub fn refresh(&mut self, players: usize, day: u32, time: u32)
        requires
            old(self).wf(),
            day < u32::MAX,
        ensures
            final(self).wf(),
            final(self).debug == old(self).debug,
            final(self).players_text@ == "Players: "@ + decimal(players as nat),
            final(self).clock_text@ == clock_text(day, time),
    {
        let same_players: bool = match self.players_key {
            Some(n) => n == players,
            None => false,
        };
        if !same_players {
            self.players_key = Some(players);
            self.players_text = players_text(players);
        }
        let minute: u32 = time / 60;
        let same_minute: bool = match self.clock_key {
            Some((d, m)) => d == day && m == minute,
            None => false,
        };
        if !same_minute {
            self.clock_key = Some((day, minute));
            self.clock_text = format_clock(day, time);
        }
    }
}

// ---- Coins -----------------------------------------------------------------

/// What the first `n` slots hold in coins, in copper.
pub open spec fn coins_before(slots: Seq<Option<InvSlot>>, n: nat) -> nat
    decreases n,
{
    if n == 0 {
        0
    } else {
        coins_before(slots, (n - 1) as nat) + coin_worth(slots[n - 1])
    }
}

pub open spec fn coin_worth(s: Option<InvSlot>) -> nat {
    match s {
        Some(stack) => match stack.item.spec_coin_value() {
            Some(v) => (stack.count * v) as nat,
            None => 0,
        },
        None => 0,
    }
}

/// The slots that are counted: hotbar and backpack.
pub open spec fn carried(slots: Seq<Option<InvSlot>>) -> nat {
    if slots.len() < ARMOR_START {
        slots.len()
    } else {
        ARMOR_START as nat
    }
}

/// What the carried coins are worth, in copper.
pub fn coin_total(slots: &Vec<Option<InvSlot>>) -> (total: u64)
    ensures
        total == coins_before(slots@, carried(slots@)),
{
    let n: usize = if slots.len() < ARMOR_START {
        slots.len()
    } else {
        ARMOR_START
    };
    let mut total: u64 = 0;
    let mut i: usize = 0;
    while i < n
        invariant
            i <= n <= slots.len(),
            n <= ARMOR_START,
            total == coins_before(slots@, i as nat),
            total <= i * 65_535_000_000,
        decreases n - i,
    {
        match slots[i] {
            Some(stack) => {
                match stack.item.coin_value() {
                    Some(v) => {
                        assert(0 <= stack.count * v <= 65_535 * 1_000_000) by (nonlinear_arith)
                            requires
                                0 <= stack.count <= 65_535,
                                0 <= v <= 1_000_000,
                        ;
                        total = total + stack.count as u64 * v as u64;
                    },
                    None => {},
                }
            },
            None => {},
        }
        i = i + 1;
    }
    total
}

/// One denomination, after a space unless it is the first; nothing for none.
pub open spec fn with_unit(s: Seq<char>, n: nat, unit: Seq<char>) -> Seq<char> {
    if n == 0 {
        s
    } else if s.len() == 0 {
        decimal(n) + unit
    } else {
        s + " "@ + decimal(n) + unit
    }
}

/// "1p 23g 45s 67c" without what is zero, and "0c" for nothing.
pub open spec fn coins_text(copper: nat) -> Seq<char> {
    if copper == 0 {
        "0c"@
    } else {
        let s = with_unit(seq![], copper / 1_000_000, "p"@);
        let s = with_unit(s, copper % 1_000_000 / 10_000, "g"@);
        let s = with_unit(s, copper % 10_000 / 100, "s"@);
        with_unit(s, copper % 100, "c"@)
    }
}

fn append_unit(s: &mut String, n: u64, unit: &str)
    ensures
        final(s)@ == with_unit(old(s)@, n as nat, unit@),
{
    if n > 0 {
        if s.as_str().unicode_len() > 0 {
            s.append(" ");
            proof {
                reveal_strlit(" ");
            }
        }
        push_decimal(s, n);
        s.append(unit);
        assert(s@ =~= with_unit(old(s)@, n as nat, unit@));
    }
}

/// Writes an amount of copper in coins.
pub fn format_coins(copper: u64) -> (s: String)
    ensures
        s@ == coins_text(copper as nat),
{
    if copper == 0 {
        return String::from_str("0c");
    }
    let mut s = String::new();
    append_unit(&mut s, copper / 1_000_000, "p");
    append_unit(&mut s, copper % 1_000_000 / 10_000, "g");
    append_unit(&mut s, copper % 10_000 / 100, "s");
    append_unit(&mut s, copper % 100, "c");
    s
}

/// The four amounts that are written make up the whole.
pub proof fn law_coins_make_up_the_whole(copper: nat)
    ensures
        copper == 1_000_000 * (copper / 1_000_000) + 10_000 * (copper % 1_000_000 / 10_000) + 100
            * (copper % 10_000 / 100) + copper % 100,
        copper % 1_000_000 / 10_000 < 100,
        copper % 10_000 / 100 < 100,
{
    let (a, r) = (copper / 1_000_000, copper % 1_000_000);
    assert(copper == 1_000_000 * a + r);
    let (b, q) = (r / 10_000, r % 10_000);
    assert(copper == 10_000 * (100 * a + b) + q);
    assert(copper % 10_000 == q);
    let (c, d) = (q / 100, q % 100);
    assert(copper == 100 * (10_000 * a + 100 * b + c) + d);
    assert(copper % 100 == d);
}

// ---- Codes -----------------------------------------------------------------

/// `s` from the end of its first word on.
pub open spec fn after_word(s: Seq<char>) -> Seq<char>
    decreases s.len(),
{
    if s.len() == 0 || white(s[0]) {
        s
    } else {
        after_word(s.drop_first())
    }
}

/// Only plain letters are shown.
pub open spec fn plain(c: char) -> char {
    if c <= '\u{7f}' {
        c
    } else {
        '?'
    }
}

/// The code of an item: the first letters of its first two words, or the
/// first two letters of its only word.
pub open spec fn glyph(name: Seq<char>) -> Seq<char> {
    let s = trim_start(name);
    let rest = trim_start(after_word(s));
    if s.len() == 0 {
        seq!['?', ' ']
    } else if rest.len() > 0 {
        seq![plain(s[0]), plain(rest[0])]
    } else if s.len() > 1 && !white(s[1]) {
        seq![plain(s[0]), plain(s[1])]
    } else {
        seq![plain(s[0]), ' ']
    }
}

fn shown(c: char) -> (r: char)
    ensures
        r == plain(c),
{
    if c <= '\u{7f}' {
        c
    } else {
        '?'
    }
}

/// The first index from `i` on that is not white.
fn skip_white(s: &Vec<char>, from: usize) -> (i: usize)
    requires
        from <= s.len(),
    ensures
        from <= i <= s.len(),
        s@.skip(i as int) == trim_start(s@.skip(from as int)),
        i < s.len() ==> !white(s@[i as int]),
{
    let mut i: usize = from;
    while i < s.len() && is_white(s[i])
        invariant
            from <= i <= s.len(),
            trim_start(s@.skip(i as int)) == trim_start(s@.skip(from as int)),
        decreases s.len() - i,
    {
        assert(s@.skip(i as int).drop_first() =~= s@.skip(i + 1));
        i = i + 1;
    }
    i
}

/// The end of the word at `from`.
fn skip_word(s: &Vec<char>, from: usize) -> (i: usize)
    requires
        from <= s.len(),
    ensures
        from <= i <= s.len(),
        s@.skip(i as int) == after_word(s@.skip(from as int)),
{
    let mut i: usize = from;
    while i < s.len() && !is_white(s[i])
        invariant
            from <= i <= s.len(),
            after_word(s@.skip(i as int)) == after_word(s@.skip(from as int)),
        decreases s.len() - i,
    {
        assert(s@.skip(i as int).drop_first() =~= s@.skip(i + 1));
        i = i + 1;
    }
    i
}

/// The two characters shown for an item without a picture.
pub fn glyph_code(name: &str) -> (code: String)
    ensures
        code@ == glyph(name@),
{
    let s = chars_of(name);
    assert(s@.skip(0) =~= s@);
    let a: usize = skip_white(&s, 0);
    let mut code = String::new();
    if a >= s.len() {
        code.push('?');
        code.push(' ');
        assert(code@ =~= glyph(name@));
        return code;
    }
    let end: usize = skip_word(&s, a);
    let b: usize = skip_white(&s, end);
    code.push(shown(s[a]));
    if b < s.len() {
        code.push(shown(s[b]));
    } else if a + 1 < s.len() && !is_white(s[a + 1]) {
        code.push(shown(s[a + 1]));
    } else {
        code.push(' ');
    }
    assert(code@ =~= glyph(name@));
    code
}

/// A count in decimal.
pub fn count_buf(count: u16) -> (s: String)
    ensures
        s@ == decimal(count as nat),
{
    let mut s = String::new();
    push_decimal(&mut s, count as u64);
    assert(s@ =~= decimal(count as nat));
    s
}

/// A name with a count behind it, unless the count is one.
pub open spec fn counted(name: Seq<char>, count: u16) -> Seq<char> {
    if count > 1 {
        name + " ("@ + decimal(count as nat) + ")"@
    } else {
        name
    }
}

/// What is shown for a drop under the mouse.
pub fn drop_label(name: &str, count: u16) -> (s: String)
    ensures
        s@ == counted(name@, count),
{
    let mut s = String::from_str(name);
    if count > 1 {
        s.append(" (");
        push_decimal(&mut s, count as u64);
        s.append(")");
    }
    s
}

/// A clock of twelve hours shows midnight and noon as twelve, and every hour from one to twelve
/// twice a day.
pub proof fn law_hours_go_round_twice(h: int)
    requires
        0 <= h < 24,
    ensures
        1 <= hour12(h) <= 12,
        (hour12(h) - h) % 12 == 0,
{
}

/// The clock names the day counted from one, then the hour, the minutes in two digits, and
/// whether noon has passed.
pub proof fn law_the_clock_is_spelled(day: u32, hours: u32, minutes: u32, seconds: u32)
    requires
        hours < 24,
        minutes < 60,
        seconds < 60,
    ensures
        clock_text(day, (hours * 3600 + minutes * 60 + seconds) as u32) == "Day "@ + decimal(
            (day + 1) as nat,
        ) + " - "@ + decimal(hour12(hours as int) as nat) + ":"@ + seq![
            digit(minutes as int / 10),
            digit(minutes as int % 10),
        ] + (if hours >= 12 {
            " PM"@
        } else {
            " AM"@
        }),
{
    let t = hours * 3600 + minutes * 60 + seconds;
    assert(t / 60 == hours * 60 + minutes);
    assert((hours * 60 + minutes) / 60 == hours);
    assert((hours * 60 + minutes) % 60 == minutes);
}

/// Only coins count as money, each for what it is worth, and only in the first fifty slots.
pub proof fn law_money_is_in_coins(slots: Seq<Option<InvSlot>>, n: nat, s: Option<InvSlot>)
    requires
        n < slots.len(),
    ensures
        carried(slots) == if slots.len() < 50 {
            slots.len()
        } else {
            50
        },
        coins_before(slots, n + 1) - coins_before(slots, n) == coin_worth(slots[n as int]),
        coins_before(slots, 0) == 0,
        s is None ==> coin_worth(s) == 0,
        s is Some && s->Some_0.item.spec_coin_value() is None ==> coin_worth(s) == 0,
        s is Some && s->Some_0.item.spec_coin_value() is Some ==> coin_worth(s)
            == s->Some_0.item.spec_coin_value()->Some_0 * s->Some_0.count,
{
    if s is Some && s->Some_0.item.spec_coin_value() is Some {
        let v = s->Some_0.item.spec_coin_value()->Some_0;
        let c = s->Some_0.count;
        assert(c * v == v * c && c * v >= 0) by (nonlinear_arith)
            requires
                v >= 0,
                c >= 0,
        ;
    }
}

/// Money is written from platinum down to copper, without the coins of which there are none.
#[verifier::rlimit(40)]
pub proof fn law_coins_are_written_largest_first(p: nat, g: nat, s: nat, c: nat)
    requires
        g < 100,
        s < 100,
        c < 100,
    ensures
        ({
            let text = coins_text(p * 1_000_000 + g * 10_000 + s * 100 + c);
            let plat = decimal(p) + "p"@;
            let gold = decimal(g) + "g"@;
            let silver = decimal(s) + "s"@;
            let copper = decimal(c) + "c"@;
            &&& p > 0 && g == 0 && s == 0 && c == 0 ==> text == plat
            &&& p == 0 && g > 0 && s == 0 && c == 0 ==> text == gold
            &&& p == 0 && g == 0 && s > 0 && c == 0 ==> text == silver
            &&& p == 0 && g == 0 && s == 0 && c > 0 ==> text == copper
            &&& p == 0 && g == 0 && s == 0 && c == 0 ==> text == "0c"@
            &&& p == 0 && g == 0 && s > 0 && c > 0 ==> text == silver + " "@ + decimal(c) + "c"@
            &&& p > 0 && g > 0 && s > 0 && c > 0 ==> text == plat + " "@ + decimal(g) + "g"@
                + " "@ + decimal(s) + "s"@ + " "@ + decimal(c) + "c"@
        }),
{
    let n = p * 1_000_000 + g * 10_000 + s * 100 + c;
    let q = s * 100 + c;
    let r = g * 10_000 + q;
    assert(n == 1_000_000 * p + r);
    assert(n / 1_000_000 == p && n % 1_000_000 == r);
    assert(r / 10_000 == g);
    assert(n == 10_000 * (100 * p + g) + q);
    assert(n % 10_000 == q);
    assert(q / 100 == s);
    assert(n == 100 * (10_000 * p + 100 * g + s) + c);
    assert(n % 100 == c);
    reveal_strlit("p");
    reveal_strlit("g");
    reveal_strlit("s");
    reveal_strlit("c");
}

/// A name of two words is shown by their first letters, a single word by its first two, and a
/// lone letter with a blank; letters beyond the plain ones show as question marks.
pub proof fn law_names_shrink_to_two_signs(name: Seq<char>)
    ensures
        glyph(name).len() == 2,
        trim_start(name).len() == 0 ==> glyph(name) == seq!['?', ' '],
        trim_start(name).len() > 0 ==> {
            let s = trim_start(name);
            let next = trim_start(after_word(s));
            &&& s[0] <= '\u{7f}' ==> glyph(name)[0] == s[0]
            &&& s[0] > '\u{7f}' ==> glyph(name)[0] == '?'
            &&& next.len() > 0 && next[0] <= '\u{7f}' ==> glyph(name)[1] == next[0]
            &&& next.len() > 0 && next[0] > '\u{7f}' ==> glyph(name)[1] == '?'
            &&& next.len() == 0 && (s.len() == 1 || white(s[1])) ==> glyph(name)[1] == ' '
            &&& next.len() == 0 && s.len() > 1 && !white(s[1]) && s[1] <= '\u{7f}' ==> glyph(
                name,
            )[1] == s[1]
            &&& next.len() == 0 && s.len() > 1 && !white(s[1]) && s[1] > '\u{7f}' ==> glyph(
                name,
            )[1] == '?'
        },
{
}

/// What follows a word is the rest from the first blank on.
pub proof fn law_words_end_at_a_blank(word: Seq<char>, rest: Seq<char>)
    requires
        forall|i: int| 0 <= i < word.len() ==> !white(#[trigger] word[i]),
        rest.len() == 0 || white(rest[0]),
    ensures
        after_word(word + rest) == rest,
    decreases word.len(),
{
    if word.len() == 0 {
        assert(word + rest =~= rest);
    } else {
        assert((word + rest)[0] == word[0]);
        assert((word + rest).drop_first() =~= word.drop_first() + rest);
        law_words_end_at_a_blank(word.drop_first(), rest);
    }
}

/// A stack on the ground is labelled with its count, a single thing with its name alone.
pub proof fn law_stacks_are_labelled(name: Seq<char>, count: u16)
    ensures
        count <= 1 ==> counted(name, count) == name,
        count > 1 ==> counted(name, count) == name + " ("@ + decimal(count as nat) + ")"@,
{
}

} // verus!
