//! What the environment and the command line say.

use vstd::prelude::*;
use vstd::string::*;

use crate::text::{chars_of, decimal, push_decimal, string_of};

verus! {

pub open spec fn is_digit(c: char) -> bool {
    '0' <= c && c <= '9'
}

pub open spec fn all_digits(s: Seq<char>) -> bool {
    forall|i: int| 0 <= i < s.len() ==> is_digit(#[trigger] s[i])
}

/// The number that digits stand for.
pub open spec fn number(s: Seq<char>) -> int
    decreases s.len(),
{
    if s.len() == 0 {
        0
    } else {
        number(s.drop_last()) * 10 + (s.last() as int - '0' as int)
    }
}

/// Behind a plus sign.
pub open spec fn unsigned(s: Seq<char>) -> Seq<char> {
    if s.len() > 0 && s[0] == '+' {
        s.drop_first()
    } else {
        s
    }
}

/// A whole number of at most `max`: digits, with or without a plus sign.
pub open spec fn parsed(s: Seq<char>, max: int) -> Option<int> {
    let d = unsigned(s);
    if d.len() > 0 && all_digits(d) && number(d) <= max {
        Some(number(d))
    } else {
        None
    }
}

proof fn lemma_number_grows(s: Seq<char>, n: int)
    requires
        all_digits(s),
        0 <= n <= s.len(),
    ensures
        0 <= number(s.take(n)) <= number(s),
    decreases s.len(),
{
    if s.len() == 0 {
        assert(s.take(n) =~= s);
    } else if n == s.len() {
        assert(s.take(n) =~= s);
        assert(all_digits(s.drop_last()));
        lemma_number_grows(s.drop_last(), n - 1);
        assert(s.drop_last().take(n - 1) =~= s.drop_last());
        assert(is_digit(s.last()));
    } else {
        assert(all_digits(s.drop_last()));
        lemma_number_grows(s.drop_last(), n);
        assert(s.drop_last().take(n) =~= s.take(n));
        assert(is_digit(s[s.len() - 1]));
    }
}

/// Reads the characters from index `from` to `to` as a number.
fn parse_part(s: &Vec<char>, from: usize, to: usize, max: u64) -> (n: Option<u64>)
    requires
        from <= to <= s.len(),
    ensures
        match n {
            Some(v) => parsed(s@.subrange(from as int, to as int), max as int) == Some(v as int),
            None => parsed(s@.subrange(from as int, to as int), max as int) is None,
        },
{
    let ghost part = s@.subrange(from as int, to as int);
    let mut start: usize = from;
    if from < to && s[from] == '+' {
        start = from + 1;
        assert(part.drop_first() =~= s@.subrange(from + 1, to as int));
    }
    let ghost d = unsigned(part);
    assert(d =~= s@.subrange(start as int, to as int));
    if start == to {
        return None;
    }
    let mut value: u64 = 0;
    let mut i: usize = start;
    while i < to
        invariant
            from <= start <= i <= to <= s.len(),
            start < to,
            d == unsigned(part),
            part == s@.subrange(from as int, to as int),
            d == s@.subrange(start as int, to as int),
            forall|k: int| 0 <= k < i - start ==> is_digit(#[trigger] d[k]),
            value == number(d.take(i - start)),
            value <= max,
        decreases to - i,
    {
        let c: char = s[i];
        assert(c == d[i - start]);
        if !('0' <= c && c <= '9') {
            return None;
        }
        let digit: u64 = c as u64 - '0' as u64;
        assert(d.take(i - start + 1).drop_last() =~= d.take(i - start));
        assert(number(d.take(i - start + 1)) == value * 10 + digit);
        if value > (u64::MAX - digit) / 10 || value * 10 + digit > max {
            proof {
                assert(value * 10 + digit > max);
                if all_digits(d) {
                    lemma_number_grows(d, i - start + 1);
                }
            }
            return None;
        }
        value = value * 10 + digit;
        i = i + 1;
    }
    assert(d.take(d.len() as int) =~= d);
    Some(value)
}

/// Reads a whole number of at most `max`.
pub fn parse(s: &str, max: u64) -> (n: Option<u64>)
    ensures
        match n {
            Some(v) => parsed(s@, max as int) == Some(v as int),
            None => parsed(s@, max as int) is None,
        },
{
    let chars = chars_of(s);
    let n: usize = chars.len();
    assert(chars@.subrange(0, n as int) =~= s@);
    parse_part(&chars, 0, n, max)
}

// ---- The server ------------------------------------------------------------

pub const DEFAULT_PORT: u16 = 3000;

pub const DEFAULT_WORLD_SEED: u64 = 42;

/// What a server is started with.
#[derive(Debug)]
pub struct Settings {
    pub port: u16,
    pub seed: u64,
    pub web_dir: String,
}

/// The number a variable holds; the default where it is not set or no number.
pub open spec fn number_or(v: Option<String>, max: int, default: int) -> int {
    match v {
        Some(s) => match parsed(s@, max) {
            Some(n) => n,
            None => default,
        },
        None => default,
    }
}

fn parse_or(v: &Option<String>, max: u64, default: u64) -> (n: u64)
    requires
        default <= max,
    ensures
        n == number_or(*v, max as int, default as int),
        n <= max,
{
    match v {
        Some(s) => match parse(s.as_str(), max) {
            Some(n) => n,
            None => default,
        },
        None => default,
    }
}

/// The settings of a server, from the variables for its port, the seed of its
/// world and the directory of its pages.
pub fn settings(port: Option<String>, seed: Option<String>, web_dir: Option<String>) -> (s: Settings)
    ensures
        s.port == number_or(port, u16::MAX as int, DEFAULT_PORT as int),
        s.seed == number_or(seed, u64::MAX as int, DEFAULT_WORLD_SEED as int),
        s.web_dir@ == (match web_dir {
            Some(d) => d@,
            None => "web"@,
        }),
{
    Settings {
        port: parse_or(&port, 65535, DEFAULT_PORT as u64) as u16,
        seed: parse_or(&seed, u64::MAX, DEFAULT_WORLD_SEED),
        web_dir: match web_dir {
            Some(d) => d,
            None => String::from_str("web"),
        },
    }
}

// ---- The preview -----------------------------------------------------------

/// Why a command line is refused.
#[derive(Debug, Clone, Copy, PartialEq, Eq, Structural)]
pub enum ArgError {
    /// There is no seed or no file.
    Usage,
    BadNumber,
    /// A part is given by other than four numbers.
    CropShape,
}

/// What a preview is asked for.
#[derive(Debug)]
pub struct PreviewArgs {
    pub seed: u64,
    pub out: String,
    pub downscale: Option<u32>,
    /// Column, row, width and height of the parts.
    pub crops: Vec<(u32, u32, u32, u32)>,
}

/// The fields between commas.
pub open spec fn fields(s: Seq<char>) -> Seq<Seq<char>>
    decreases s.len(),
{
    if s.len() == 0 {
        seq![Seq::empty()]
    } else {
        let before = fields(s.drop_last());
        if s.last() == ',' {
            before.push(Seq::empty())
        } else {
            before.drop_last().push(before.last().push(s.last()))
        }
    }
}

/// The numbers that the first `n` fields stand for.
pub open spec fn numbers(f: Seq<Seq<char>>, n: int) -> Option<Seq<u32>>
    decreases n,
{
    if n <= 0 {
        Some(Seq::empty())
    } else {
        match (numbers(f, n - 1), parsed(f[n - 1], u32::MAX as int)) {
            (Some(before), Some(v)) => Some(before.push(v as u32)),
            _ => None,
        }
    }
}

/// The part that a text like `10,20,300,200` asks for.
pub open spec fn crop_of(s: Seq<char>) -> Result<(u32, u32, u32, u32), ArgError> {
    match numbers(fields(s), fields(s).len() as int) {
        None => Err(ArgError::BadNumber),
        Some(n) => if n.len() == 4 {
            Ok((n[0], n[1], n[2], n[3]))
        } else {
            Err(ArgError::CropShape)
        },
    }
}

proof fn lemma_fields_len(s: Seq<char>)
    ensures
        fields(s).len() >= 1,
    decreases s.len(),
{
    if s.len() > 0 {
        lemma_fields_len(s.drop_last());
    }
}

/// Reading one more character keeps the fields before the last.
proof fn lemma_fields_step(s: Seq<char>, from: int, i: int)
    requires
        0 <= from <= i < s.len(),
        fields(s.take(i)).last() == s.subrange(from, i),
    ensures
        ({
            let f = fields(s.take(i));
            fields(s.take(i + 1)) == (if s[i] == ',' {
                f.push(Seq::empty())
            } else {
                f.drop_last().push(s.subrange(from, i + 1))
            })
        }),
{
    assert(s.take(i + 1).drop_last() =~= s.take(i));
    assert(s.subrange(from, i).push(s[i]) =~= s.subrange(from, i + 1));
}

/// The numbers of a prefix of the fields do not depend on the rest.
proof fn lemma_numbers_prefix(f: Seq<Seq<char>>, g: Seq<Seq<char>>, n: int)
    requires
        n <= f.len(),
        n <= g.len(),
        forall|i: int| 0 <= i < n ==> f[i] == g[i],
    ensures
        numbers(f, n) == numbers(g, n),
    decreases n,
{
    if n > 0 {
        lemma_numbers_prefix(f, g, n - 1);
    }
}

/// Once a field is no number, there are no numbers.
proof fn lemma_numbers_stop(f: Seq<Seq<char>>, k: int, n: int)
    requires
        k <= n,
        numbers(f, k) is None,
    ensures
        numbers(f, n) is None,
    decreases n,
{
    if k < n {
        lemma_numbers_stop(f, k, n - 1);
    }
}

/// The fields before the last stay as more characters are read.
proof fn lemma_fields_stay(s: Seq<char>, i: int, j: int)
    requires
        0 <= i <= j <= s.len(),
    ensures
        fields(s.take(i)).len() <= fields(s.take(j)).len(),
        forall|k: int|
            0 <= k < fields(s.take(i)).len() - 1 ==> fields(s.take(j))[k] == fields(s.take(i))[k],
    decreases j - i,
{
    if i < j {
        lemma_fields_stay(s, i, j - 1);
        lemma_fields_len(s.take(i));
        assert(s.take(j).drop_last() =~= s.take(j - 1));
    }
}

/// Reads the numbers between commas from index `start` on.
fn parse_crop(s: &Vec<char>, start: usize) -> (r: Result<(u32, u32, u32, u32), ArgError>)
    requires
        start <= s.len(),
    ensures
        r == crop_of(s@.subrange(start as int, s.len() as int)),
{
    let ghost part = s@.subrange(start as int, s.len() as int);
    let ghost all = fields(part);
    let mut found: Vec<u32> = Vec::new();
    let mut from: usize = start;
    let mut i: usize = start;
    proof {
        assert(part.take(0) =~= Seq::<char>::empty());
        assert(part.subrange(0, 0) =~= Seq::<char>::empty());
    }
    while i < s.len()
        invariant
            start <= from <= i <= s.len(),
            part == s@.subrange(start as int, s.len() as int),
            all == fields(part),
            fields(part.take(i - start)).len() == found.len() + 1,
            fields(part.take(i - start)).last() == part.subrange(from - start, i - start),
            numbers(fields(part.take(i - start)), found.len() as int) == Some(found@),
        decreases s.len() - i,
    {
        let ghost f = fields(part.take(i - start));
        proof {
            lemma_fields_step(part, from - start, i - start);
        }
        if s[i] == ',' {
            let n = parse_part(s, from, i, u32::MAX as u64);
            assert(s@.subrange(from as int, i as int) =~= part.subrange(from - start, i - start));
            proof {
                let g = fields(part.take(i - start + 1));
                lemma_numbers_prefix(f, g, found.len() as int);
                assert(g[found.len() as int] == f.last());
                if n is None {
                    assert(numbers(g, found.len() + 1) is None);
                    lemma_fields_stay(part, i - start + 1, part.len() as int);
                    assert(part.take(part.len() as int) =~= part);
                    assert(forall|k: int| 0 <= k < found.len() + 1 ==> g[k] == all[k]);
                    lemma_numbers_prefix(g, all, found.len() + 1);
                    lemma_numbers_stop(all, found.len() + 1, all.len() as int);
                }
            }
            match n {
                Some(v) => {
                    found.push(v as u32);
                },
                None => {
                    return Err(ArgError::BadNumber);
                },
            }
            from = i + 1;
            assert(part.subrange(from - start, i - start + 1) =~= Seq::<char>::empty());
        } else {
            proof {
                let g = fields(part.take(i - start + 1));
                lemma_numbers_prefix(f, g, found.len() as int);
            }
        }
        i = i + 1;
    }
    assert(part.take(part.len() as int) =~= part);
    assert(s@.subrange(from as int, i as int) =~= part.subrange(from - start, i - start));
    let len: usize = s.len();
    match parse_part(s, from, len, u32::MAX as u64) {
        Some(v) => {
            found.push(v as u32);
        },
        None => {
            return Err(ArgError::BadNumber);
        },
    }
    if found.len() == 4 {
        Ok((found[0], found[1], found[2], found[3]))
    } else {
        Err(ArgError::CropShape)
    }
}

/// The word that a part is asked for with.
pub open spec fn crop_word() -> Seq<char> {
    seq!['c', 'r', 'o', 'p', '=']
}

pub open spec fn asks_crop(s: Seq<char>) -> bool {
    s.len() >= 5 && s.take(5) == crop_word()
}

/// The options among the first `n` words: the last size counts, and all
/// parts do.
pub open spec fn options(args: Seq<String>, n: int) -> Result<
    (Option<u32>, Seq<(u32, u32, u32, u32)>),
    ArgError,
>
    decreases n,
{
    if n <= 2 {
        Ok((None, Seq::empty()))
    } else {
        let s = args[n - 1]@;
        match options(args, n - 1) {
            Err(e) => Err(e),
            Ok((downscale, crops)) => if asks_crop(s) {
                match crop_of(s.skip(5)) {
                    Ok(c) => Ok((downscale, crops.push(c))),
                    Err(e) => Err(e),
                }
            } else {
                match parsed(s, u32::MAX as int) {
                    Some(v) => Ok((Some(v as u32), crops)),
                    None => Err(ArgError::BadNumber),
                }
            },
        }
    }
}

proof fn lemma_options_stop(args: Seq<String>, k: int, n: int)
    requires
        k <= n,
        options(args, k) is Err,
    ensures
        options(args, n) == options(args, k),
    decreases n,
{
    if k < n {
        lemma_options_stop(args, k, n - 1);
    }
}

/// Whether a word asks for a part of the picture.
fn is_crop(s: &Vec<char>) -> (b: bool)
    ensures
        b == asks_crop(s@),
{
    if s.len() < 5 {
        return false;
    }
    let b = s[0] == 'c' && s[1] == 'r' && s[2] == 'o' && s[3] == 'p' && s[4] == '=';
    proof {
        if b {
            assert(s@.take(5) =~= crop_word());
        } else {
            let t = s@.take(5);
            assert(t[0] == s@[0] && t[1] == s@[1] && t[2] == s@[2] && t[3] == s@[3] && t[4]
                == s@[4]);
            let w = crop_word();
            assert(w[0] == 'c' && w[1] == 'r' && w[2] == 'o' && w[3] == 'p' && w[4] == '=');
        }
    }
    b
}

/// Reads the command line of a preview: a seed, a file, and options.
pub fn preview_args(args: &Vec<String>) -> (r: Result<PreviewArgs, ArgError>)
    ensures
        match r {
            Ok(p) => {
                &&& args.len() >= 2
                &&& parsed(args@[0]@, u64::MAX as int) == Some(p.seed as int)
                &&& p.out@ == args@[1]@
                &&& options(args@, args@.len() as int) == Ok::<
                    (Option<u32>, Seq<(u32, u32, u32, u32)>),
                    ArgError,
                >((p.downscale, p.crops@))
            },
            Err(e) => if args.len() == 0 {
                e == ArgError::Usage
            } else if parsed(args@[0]@, u64::MAX as int) is None {
                e == ArgError::BadNumber
            } else if args.len() == 1 {
                e == ArgError::Usage
            } else {
                options(args@, args@.len() as int) == Err::<
                    (Option<u32>, Seq<(u32, u32, u32, u32)>),
                    ArgError,
                >(e)
            },
        },
{
    if args.len() == 0 {
        return Err(ArgError::Usage);
    }
    let seed: u64 = match parse(args[0].as_str(), u64::MAX) {
        Some(n) => n,
        None => {
            return Err(ArgError::BadNumber);
        },
    };
    if args.len() == 1 {
        return Err(ArgError::Usage);
    }
    let out = String::from_str(args[1].as_str());
    let mut downscale: Option<u32> = None;
    let mut crops: Vec<(u32, u32, u32, u32)> = Vec::new();
    let mut i: usize = 2;
    while i < args.len()
        invariant
            2 <= i <= args.len(),
            parsed(args@[0]@, u64::MAX as int) is Some,
            options(args@, i as int) == Ok::<
                (Option<u32>, Seq<(u32, u32, u32, u32)>),
                ArgError,
            >((downscale, crops@)),
        decreases args.len() - i,
    {
        let word = chars_of(args[i].as_str());
        let n: usize = word.len();
        if is_crop(&word) {
            assert(word@.subrange(5, n as int) =~= word@.skip(5));
            match parse_crop(&word, 5) {
                Ok(c) => {
                    crops.push(c);
                },
                Err(e) => {
                    proof {
                        lemma_options_stop(args@, i + 1, args@.len() as int);
                    }
                    return Err(e);
                },
            }
        } else {
            assert(word@.subrange(0, n as int) =~= word@);
            match parse_part(&word, 0, n, u32::MAX as u64) {
                Some(v) => {
                    downscale = Some(v as u32);
                },
                None => {
                    proof {
                        lemma_options_stop(args@, i + 1, args@.len() as int);
                    }
                    return Err(ArgError::BadNumber);
                },
            }
        }
        i = i + 1;
    }
    Ok(PreviewArgs { seed, out, downscale, crops })
}

/// A name without the endings for pictures.
pub open spec fn stem(s: Seq<char>) -> Seq<char>
    decreases s.len(),
{
    let n = s.len() as int;
    if n >= 4 && s.skip(n - 4) == seq!['.', 'p', 'n', 'g'] {
        stem(s.take(n - 4))
    } else {
        s
    }
}

/// Length of a name without the endings for pictures.
fn stem_len(s: &Vec<char>) -> (n: usize)
    ensures
        n <= s.len(),
        s@.take(n as int) == stem(s@),
{
    let mut n: usize = s.len();
    assert(s@.take(n as int) =~= s@);
    while n >= 4 && s[n - 4] == '.' && s[n - 3] == 'p' && s[n - 2] == 'n' && s[n - 1] == 'g'
        invariant
            n <= s.len(),
            stem(s@.take(n as int)) == stem(s@),
        decreases n,
    {
        proof {
            let t = s@.take(n as int);
            assert(t.skip(n - 4) =~= seq!['.', 'p', 'n', 'g']);
            assert(t.take(n - 4) =~= s@.take(n - 4));
        }
        n = n - 4;
    }
    proof {
        let t = s@.take(n as int);
        if n >= 4 && t.skip(n - 4) == seq!['.', 'p', 'n', 'g'] {
            let e = t.skip(n - 4);
            assert(e[0] == s@[n - 4] && e[1] == s@[n - 3] && e[2] == s@[n - 2] && e[3] == s@[n
                - 1]);
        }
    }
    n
}

/// The file of the smaller picture.
pub fn small_path(out: &str) -> (s: String)
    ensures
        s@ == stem(out@) + ".small.png"@,
{
    let chars = chars_of(out);
    let n: usize = stem_len(&chars);
    let mut s = string_of(&chars, 0, n);
    assert(chars@.subrange(0, n as int) =~= chars@.take(n as int));
    s.append(".small.png");
    s
}

/// The file of part number `i`.
pub fn crop_path(out: &str, i: usize) -> (s: String)
    ensures
        s@ == stem(out@) + ".crop"@ + decimal(i as nat) + ".png"@,
{
    let chars = chars_of(out);
    let n: usize = stem_len(&chars);
    let mut s = string_of(&chars, 0, n);
    assert(chars@.subrange(0, n as int) =~= chars@.take(n as int));
    s.append(".crop");
    push_decimal(&mut s, i as u64);
    s.append(".png");
    s
}

proof fn lemma_decimal(n: nat)
    ensures
        number(decimal(n)) == n,
        all_digits(decimal(n)),
        decimal(n).len() >= 1,
        decimal(n)[0] != '+',
    decreases n,
{
    let s = decimal(n);
    if n < 10 {
        assert(s.drop_last() =~= seq![]);
        assert(number(s.drop_last()) == 0);
        assert(crate::text::digit(n as int) as int == '0' as int + n);
    } else {
        lemma_decimal(n / 10);
        assert(s.drop_last() =~= decimal(n / 10));
        assert(crate::text::digit((n % 10) as int) as int == '0' as int + n % 10);
        assert(s[0] == decimal(n / 10)[0]);
    }
}

/// A number that is written out is read as what it is, with a plus sign or
/// without, unless it is too large; what has anything but digits is no number.
pub proof fn law_written_numbers_are_read(n: nat, max: int, s: Seq<char>, i: int)
    requires
        max >= 0,
    ensures
        n <= max ==> parsed(decimal(n), max) == Some(n as int),
        n <= max ==> parsed(seq!['+'] + decimal(n), max) == Some(n as int),
        n > max ==> parsed(decimal(n), max) is None,
        parsed(seq![], max) is None,
        1 <= i < s.len() && !('0' <= s[i] && s[i] <= '9') ==> parsed(s, max) is None,
        parsed(s, max) is Some ==> parsed(s, max)->Some_0 <= max,
{
    lemma_decimal(n);
    let p = seq!['+'] + decimal(n);
    assert(p[0] == '+');
    assert(p.drop_first() =~= decimal(n));
    if 1 <= i < s.len() && !('0' <= s[i] && s[i] <= '9') {
        let d = unsigned(s);
        if s[0] == '+' {
            assert(d[i - 1] == s[i]);
        } else {
            assert(d[i] == s[i]);
        }
    }
}

/// A setting that is not given, or is no number, is the usual one.
pub proof fn law_settings_have_defaults(v: Option<String>, max: int, default: int)
    ensures
        v is None ==> number_or(v, max, default) == default,
        v is Some && parsed(v->Some_0@, max) is None ==> number_or(v, max, default) == default,
        v is Some && parsed(v->Some_0@, max) is Some ==> number_or(v, max, default) == parsed(
            v->Some_0@,
            max,
        )->Some_0,
        DEFAULT_PORT == 3000 && DEFAULT_WORLD_SEED == 42,
{
}

/// A list has one field more than it has commas.
pub proof fn law_commas_part_fields(s: Seq<char>)
    ensures
        fields(s).len() == s.filter(|c: char| c == ',').len() + 1,
    decreases s.len(),
{
    reveal(Seq::filter);
    if s.len() > 0 {
        law_commas_part_fields(s.drop_last());
    }
}

/// A crop is four numbers; other than four of them are refused, and so is what
/// is no number.
pub proof fn law_crops_are_four_numbers(s: Seq<char>)
    ensures
        crop_of(s) is Ok ==> fields(s).len() == 4,
        crop_of(s) matches Ok((x, y, w, h)) ==> parsed(fields(s)[0], u32::MAX as int) == Some(
            x as int,
        ) && parsed(fields(s)[1], u32::MAX as int) == Some(y as int) && parsed(
            fields(s)[2],
            u32::MAX as int,
        ) == Some(w as int) && parsed(fields(s)[3], u32::MAX as int) == Some(h as int),
        crop_of(s) matches Err(e) ==> (e is CropShape <==> numbers(
            fields(s),
            fields(s).len() as int,
        ) is Some),
{
    lemma_numbers(fields(s), fields(s).len() as int);
}

proof fn lemma_numbers(f: Seq<Seq<char>>, n: int)
    requires
        0 <= n <= f.len(),
    ensures
        numbers(f, n) matches Some(v) ==> v.len() == n && forall|i: int|
            0 <= i < n ==> parsed(f[i], u32::MAX as int) == Some((#[trigger] v[i]) as int),
    decreases n,
{
    if n > 0 {
        lemma_numbers(f, n - 1);
        if let Some(v) = numbers(f, n) {
            let before = numbers(f, n - 1)->Some_0;
            assert forall|i: int| 0 <= i < n implies parsed(f[i], u32::MAX as int) == Some(
                (#[trigger] v[i]) as int,
            ) by {
                if i < n - 1 {
                    assert(v[i] == before[i]);
                } else if all_digits(unsigned(f[i])) {
                    lemma_number_grows(unsigned(f[i]), 0);
                }
            }
        }
    }
}

/// The stem of a path is the path without the endings of a picture.
pub proof fn law_stems_have_no_ending(s: Seq<char>)
    ensures
        stem(s + seq!['.', 'p', 'n', 'g']) == stem(s),
        stem(s).len() <= s.len() && stem(s) == s.take(stem(s).len() as int),
        stem(s).len() >= 4 ==> stem(s).skip(stem(s).len() - 4) != seq!['.', 'p', 'n', 'g'],
    decreases s.len(),
{
    let e = seq!['.', 'p', 'n', 'g'];
    let t = s + e;
    assert(t.skip(t.len() - 4) =~= e);
    assert(t.take(t.len() - 4) =~= s);
    let n = s.len() as int;
    if n >= 4 && s.skip(n - 4) == e {
        law_stems_have_no_ending(s.take(n - 4));
        assert(s.take(n - 4).take(stem(s).len() as int) =~= s.take(stem(s).len() as int));
    } else {
        assert(s.take(n) =~= s);
    }
}

/// What follows the seed and the file is read from left to right: a crop is kept with the others,
/// a number says how much smaller the picture is to be, the last one counting, and the first word
/// that is neither ends the reading.
pub proof fn law_arguments_are_read_in_turn(args: Seq<String>, n: int)
    requires
        2 < n <= args.len(),
    ensures
        ({
            let s = args[n - 1]@;
            let word = seq!['c', 'r', 'o', 'p', '='];
            let before = options(args, n - 1);
            let now = options(args, n);
            &&& options(args, 2) == Ok::<_, ArgError>((None::<u32>, Seq::<(u32, u32, u32, u32)>::empty()))
            &&& before is Err ==> now == before
            &&& before is Ok && s.len() >= 5 && s.take(5) == word && crop_of(s.skip(5)) is Ok
                ==> now is Ok && now->Ok_0.0 == before->Ok_0.0 && now->Ok_0.1
                == before->Ok_0.1.push(crop_of(s.skip(5))->Ok_0)
            &&& before is Ok && s.len() >= 5 && s.take(5) == word && crop_of(s.skip(5)) is Err
                ==> now is Err && now->Err_0 == crop_of(s.skip(5))->Err_0
            &&& before is Ok && (s.len() < 5 || s.take(5) != word) ==> match parsed(
                s,
                u32::MAX as int,
            ) {
                Some(v) => now is Ok && now->Ok_0.0 == Some(v as u32) && now->Ok_0.1
                    == before->Ok_0.1,
                None => now is Err && now->Err_0 is BadNumber,
            }
        }),
{
}

} // verus!
