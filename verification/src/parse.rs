//! The command grammar of the interactive prompt, as verified functions from
//! text to values: a command line is split on ASCII whitespace, the first
//! word names the command (matched without regard to ASCII case), and index
//! or day arguments are read as decimal numbers.

use vstd::prelude::*;
use vstd::string::StrSliceExecFns;

use crate::task::Weight;

verus! {

/// A fully parsed command line of the prompt.
#[derive(Debug, Clone, Copy, PartialEq, Eq, Structural)]
pub enum Command {
    /// Add a task through the builder dialog.
    New,
    /// Remove the task at the given index.
    Remove(usize),
    /// Edit the task at the given index.
    Edit(usize),
    /// Advance time by the given number of days.
    Tick(usize),
    /// List all tasks.
    List,
    /// Toggle the command descriptions.
    Help,
    /// Persist and exit.
    Quit,
}

/// Why a command line was rejected.
#[derive(Debug, Clone, Copy, PartialEq, Eq, Structural)]
pub enum ParseError {
    /// The first word names no command.
    UnknownCommand,
    /// The command got more arguments than it takes.
    UnexpectedArgument,
    /// The command needs an argument it did not get.
    MissingArgument,
    /// An index or day argument is not a decimal number that fits.
    InvalidNumber,
}

/// The characters that separate words of a command line.
pub open spec fn is_space(c: char) -> bool {
    c == ' ' || c == '\t' || c == '\n' || c == '\r' || c == '\u{000B}' || c == '\u{000C}'
}

/// The words of `s`, accumulated left to right: `cur` is the word begun so
/// far.  A separator closes the current word; anything else extends it.
pub open spec fn words_from(s: Seq<char>, cur: Seq<char>) -> Seq<Seq<char>>
    decreases s.len(),
{
    if s.len() == 0 {
        if cur.len() == 0 {
            seq![]
        } else {
            seq![cur]
        }
    } else if is_space(s[0]) {
        if cur.len() == 0 {
            words_from(s.drop_first(), Seq::empty())
        } else {
            seq![cur] + words_from(s.drop_first(), Seq::empty())
        }
    } else {
        words_from(s.drop_first(), cur.push(s[0]))
    }
}

/// The whitespace-separated words of a command line.
pub open spec fn words_of(s: Seq<char>) -> Seq<Seq<char>> {
    words_from(s, Seq::empty())
}

/// `a` is `b` up to ASCII case, character for character; `b` is the
/// lower-case pattern.
pub open spec fn char_matches(a: char, b: char) -> bool {
    a as u32 == b as u32 || (97 <= b as u32 <= 122 && a as u32 + 32 == b as u32)
}

/// The word equals the lower-case keyword up to ASCII case.
pub open spec fn matches_keyword(t: Seq<char>, kw: Seq<char>) -> bool {
    t.len() == kw.len() && forall|i: int| 0 <= i < t.len() ==> char_matches(t[i], kw[i])
}

/// A decimal digit.
pub open spec fn is_digit(c: char) -> bool {
    48 <= c as u32 <= 57
}

/// The value of a decimal digit.
pub open spec fn digit_val(c: char) -> int {
    c as u32 - 48
}

/// The value of a sequence of decimal digits, most significant first.
pub open spec fn dec_value(t: Seq<char>) -> int
    decreases t.len(),
{
    if t.len() == 0 {
        0
    } else {
        dec_value(t.drop_last()) * 10 + digit_val(t.last())
    }
}

/// The digits of a number word: an optional leading plus sign is dropped.
pub open spec fn number_digits(t: Seq<char>) -> Seq<char> {
    if t.len() > 0 && t[0] == '+' {
        t.drop_first()
    } else {
        t
    }
}

/// The word is a non-negative decimal number: at least one digit, nothing
/// but digits after an optional leading plus sign.
pub open spec fn is_number(t: Seq<char>) -> bool {
    let ds = number_digits(t);
    ds.len() > 0 && forall|i: int| 0 <= i < ds.len() ==> is_digit(ds[i])
}

/// The value of a number word.
pub open spec fn number_of(t: Seq<char>) -> int {
    dec_value(number_digits(t))
}

/// The word is a number whose value fits the machine's index type.
pub open spec fn fits_usize(t: Seq<char>) -> bool {
    is_number(t) && number_of(t) <= usize::MAX
}

/// What a command line means.  An empty line quits, like an ended input
/// stream.  A missing tick count defaults to one day.  For the commands that
/// take a number, the number is read first, so a bad number is reported
/// before a surplus argument is.
pub open spec fn parsed_command(s: Seq<char>) -> Result<Command, ParseError> {
    let ts = words_of(s);
    if ts.len() == 0 {
        Ok(Command::Quit)
    } else if matches_keyword(ts[0], "new"@) {
        if ts.len() == 1 {
            Ok(Command::New)
        } else {
            Err(ParseError::UnexpectedArgument)
        }
    } else if matches_keyword(ts[0], "rm"@) || matches_keyword(ts[0], "remove"@) {
        if ts.len() < 2 {
            Err(ParseError::MissingArgument)
        } else if !fits_usize(ts[1]) {
            Err(ParseError::InvalidNumber)
        } else if ts.len() > 2 {
            Err(ParseError::UnexpectedArgument)
        } else {
            Ok(Command::Remove(number_of(ts[1]) as usize))
        }
    } else if matches_keyword(ts[0], "ed"@) || matches_keyword(ts[0], "edit"@) {
        if ts.len() < 2 {
            Err(ParseError::MissingArgument)
        } else if !fits_usize(ts[1]) {
            Err(ParseError::InvalidNumber)
        } else if ts.len() > 2 {
            Err(ParseError::UnexpectedArgument)
        } else {
            Ok(Command::Edit(number_of(ts[1]) as usize))
        }
    } else if matches_keyword(ts[0], "ls"@) || matches_keyword(ts[0], "list"@) {
        if ts.len() == 1 {
            Ok(Command::List)
        } else {
            Err(ParseError::UnexpectedArgument)
        }
    } else if matches_keyword(ts[0], "tk"@) || matches_keyword(ts[0], "tic"@) || matches_keyword(
        ts[0],
        "tick"@,
    ) {
        if ts.len() == 1 {
            Ok(Command::Tick(1))
        } else if !fits_usize(ts[1]) {
            Err(ParseError::InvalidNumber)
        } else if ts.len() > 2 {
            Err(ParseError::UnexpectedArgument)
        } else {
            Ok(Command::Tick(number_of(ts[1]) as usize))
        }
    } else if matches_keyword(ts[0], "h"@) || matches_keyword(ts[0], "hlp"@) || matches_keyword(
        ts[0],
        "help"@,
    ) {
        if ts.len() == 1 {
            Ok(Command::Help)
        } else {
            Err(ParseError::UnexpectedArgument)
        }
    } else if matches_keyword(ts[0], "q"@) || matches_keyword(ts[0], "quit"@) {
        if ts.len() == 1 {
            Ok(Command::Quit)
        } else {
            Err(ParseError::UnexpectedArgument)
        }
    } else {
        Err(ParseError::UnknownCommand)
    }
}

/// What a weight word means: the tier names, their short forms, or the tier
/// number, all without regard to ASCII case.
pub open spec fn parsed_weight(t: Seq<char>) -> Option<Weight> {
    if matches_keyword(t, "high"@) || matches_keyword(t, "hi"@) || matches_keyword(t, "h"@)
        || matches_keyword(t, "3"@) {
        Some(Weight::High)
    } else if matches_keyword(t, "medium"@) || matches_keyword(t, "med"@) || matches_keyword(
        t,
        "m"@,
    ) || matches_keyword(t, "2"@) {
        Some(Weight::Med)
    } else if matches_keyword(t, "low"@) || matches_keyword(t, "lo"@) || matches_keyword(t, "l"@)
        || matches_keyword(t, "1"@) {
        Some(Weight::Low)
    } else {
        None
    }
}

/// The words of a word vector, as sequences.
pub open spec fn word_views(ts: Seq<Vec<char>>) -> Seq<Seq<char>> {
    ts.map_values(|t: Vec<char>| t@)
}

/// The characters of a text, one by one.
fn collect_chars(s: &str) -> (cs: Vec<char>)
    ensures
        cs@ == s@,
{
    let n = s.unicode_len();
    let mut cs: Vec<char> = Vec::new();
    let mut i: usize = 0;
    while i < n
        invariant
            0 <= i <= n,
            n == s@.len(),
            cs@ == s@.subrange(0, i as int),
        decreases n - i,
    {
        let c = s.get_char(i);
        cs.push(c);
        proof {
            assert(cs@ =~= s@.subrange(0, i + 1));
        }
        i += 1;
    }
    proof {
        assert(cs@ =~= s@);
    }
    cs
}

/// Whether the character separates words.
fn is_space_exec(c: char) -> (r: bool)
    ensures
        r == is_space(c),
{
    c == ' ' || c == '\t' || c == '\n' || c == '\r' || c == '\u{000B}' || c == '\u{000C}'
}

/// Splits the characters into whitespace-separated words.
fn split_words(cs: &Vec<char>) -> (ts: Vec<Vec<char>>)
    ensures
        word_views(ts@) == words_of(cs@),
{
    let ghost full = cs@;
    let mut ts: Vec<Vec<char>> = Vec::new();
    let mut cur: Vec<char> = Vec::new();
    let mut i: usize = 0;
    proof {
        assert(full.subrange(0, full.len() as int) =~= full);
        assert(word_views(ts@) + words_from(full, cur@) =~= words_from(full, Seq::empty()));
    }
    while i < cs.len()
        invariant
            0 <= i <= full.len(),
            full == cs@,
            words_of(full) == word_views(ts@) + words_from(
                full.subrange(i as int, full.len() as int),
                cur@,
            ),
        decreases full.len() - i,
    {
        let ghost rest = full.subrange(i as int, full.len() as int);
        proof {
            assert(rest[0] == full[i as int]);
            assert(rest.drop_first() =~= full.subrange(i + 1, full.len() as int));
        }
        let c = cs[i];
        if is_space_exec(c) {
            if cur.len() > 0 {
                let ghost pre_ts = ts@;
                let ghost word = cur@;
                ts.push(cur);
                cur = Vec::new();
                proof {
                    assert(cur@ =~= Seq::<char>::empty());
                    assert(word_views(ts@) =~= word_views(pre_ts).push(word));
                    assert(words_from(rest, word) == seq![word] + words_from(
                        rest.drop_first(),
                        Seq::empty(),
                    ));
                    assert(word_views(pre_ts) + (seq![word] + words_from(
                        rest.drop_first(),
                        Seq::empty(),
                    )) =~= word_views(pre_ts).push(word) + words_from(
                        rest.drop_first(),
                        Seq::empty(),
                    ));
                }
            } else {
                proof {
                    assert(cur@ =~= Seq::<char>::empty());
                    assert(words_from(rest, cur@) == words_from(rest.drop_first(), Seq::empty()));
                }
            }
        } else {
            let ghost pre_cur = cur@;
            cur.push(c);
            proof {
                assert(words_from(rest, pre_cur) == words_from(
                    rest.drop_first(),
                    pre_cur.push(rest[0]),
                ));
                assert(cur@ == pre_cur.push(rest[0]));
            }
        }
        i += 1;
    }
    proof {
        assert(full.subrange(full.len() as int, full.len() as int) =~= Seq::<char>::empty());
    }
    if cur.len() > 0 {
        let ghost pre_ts = ts@;
        let ghost word = cur@;
        ts.push(cur);
        proof {
            assert(word_views(ts@) =~= word_views(pre_ts).push(word));
            assert(word_views(pre_ts).push(word) =~= word_views(pre_ts) + seq![word]);
        }
    }
    ts
}

/// Whether the word equals the lower-case keyword up to ASCII case.
fn word_matches(t: &Vec<char>, kw: &str) -> (r: bool)
    ensures
        r == matches_keyword(t@, kw@),
{
    let n = kw.unicode_len();
    if t.len() != n {
        return false;
    }
    let mut i: usize = 0;
    while i < n
        invariant
            0 <= i <= n,
            n == kw@.len(),
            n == t@.len(),
            forall|k: int| 0 <= k < i ==> char_matches(t@[k], kw@[k]),
        decreases n - i,
    {
        let a = t[i] as u32;
        let b = kw.get_char(i) as u32;
        if !(a == b || (97 <= b && b <= 122 && a == b - 32)) {
            return false;
        }
        i += 1;
    }
    true
}

/// Reads a word as a non-negative decimal number, absent when the word is
/// not a number or its value does not fit.
fn parse_usize(t: &Vec<char>) -> (r: Option<usize>)
    ensures
        r is Some <==> fits_usize(t@),
        r matches Some(n) ==> n == number_of(t@),
{
    let offset: usize = if t.len() > 0 && t[0] == '+' {
        1
    } else {
        0
    };
    let ghost ds = number_digits(t@);
    proof {
        assert(ds =~= t@.subrange(offset as int, t@.len() as int));
    }
    if t.len() == offset {
        return None;
    }
    let mut acc: usize = 0;
    let mut i: usize = offset;
    while i < t.len()
        invariant
            offset <= i <= t@.len(),
            offset <= 1,
            ds == number_digits(t@),
            ds == t@.subrange(offset as int, t@.len() as int),
            forall|k: int| 0 <= k < i - offset ==> is_digit(ds[k]),
            acc == dec_value(ds.subrange(0, i - offset)),
        decreases t@.len() - i,
    {
        let c = t[i];
        let u = c as u32;
        proof {
            assert(ds[i - offset] == t@[i as int]);
        }
        if !(48 <= u && u <= 57) {
            proof {
                assert(!is_digit(ds[i - offset]));
                assert(!is_number(t@)) by {
                    assert(number_digits(t@) == ds);
                    assert(!is_digit(number_digits(t@)[i - offset]));
                }
            }
            return None;
        }
        let d = (u - 48) as usize;
        let ghost prefix = ds.subrange(0, i - offset);
        let ghost prefix2 = ds.subrange(0, i + 1 - offset);
        proof {
            assert(prefix2.drop_last() =~= prefix);
            assert(prefix2.last() == ds[i - offset]);
            assert(dec_value(prefix2) == dec_value(prefix) * 10 + digit_val(ds[i - offset]));
        }
        let next = match acc.checked_mul(10) {
            Some(v) => v.checked_add(d),
            None => None,
        };
        match next {
            Some(v) => {
                acc = v;
            },
            None => {
                proof {
                    assert(dec_value(prefix2) > usize::MAX);
                    if is_number(t@) {
                        assert(number_digits(t@) == ds);
                        assert(forall|k: int|
                            0 <= k < ds.len() ==> is_digit(#[trigger] ds[k]));
                        lemma_dec_value_prefix_le(ds, i + 1 - offset);
                        assert(number_of(t@) > usize::MAX);
                    }
                }
                return None;
            },
        }
        i += 1;
    }
    proof {
        assert(ds.subrange(0, ds.len() as int) =~= ds);
    }
    Some(acc)
}

/// Digit sequences have non-negative values.
proof fn lemma_dec_value_nonneg(t: Seq<char>)
    requires
        forall|i: int| 0 <= i < t.len() ==> is_digit(t[i]),
    ensures
        dec_value(t) >= 0,
    decreases t.len(),
{
    if t.len() > 0 {
        assert forall|i: int| 0 <= i < t.drop_last().len() implies is_digit(
            t.drop_last()[i],
        ) by {
            assert(t.drop_last()[i] == t[i]);
        }
        lemma_dec_value_nonneg(t.drop_last());
    }
}

/// A digit sequence is worth at least any of its prefixes: digits only ever
/// scale the value up.
proof fn lemma_dec_value_prefix_le(t: Seq<char>, k: int)
    requires
        forall|i: int| 0 <= i < t.len() ==> is_digit(t[i]),
        0 <= k <= t.len(),
    ensures
        dec_value(t.subrange(0, k)) <= dec_value(t),
    decreases t.len() - k,
{
    if k == t.len() {
        assert(t.subrange(0, k) =~= t);
    } else {
        let wider = t.subrange(0, k + 1);
        assert forall|i: int| 0 <= i < wider.len() implies is_digit(wider[i]) by {
            assert(wider[i] == t[i]);
        }
        assert(wider.drop_last() =~= t.subrange(0, k));
        lemma_dec_value_nonneg(t.subrange(0, k));
        assert(dec_value(wider) == dec_value(t.subrange(0, k)) * 10 + digit_val(wider.last()));
        assert(dec_value(t.subrange(0, k)) <= dec_value(wider));
        lemma_dec_value_prefix_le(t, k + 1);
    }
}

/// Reads a whole text as a non-negative decimal number: an optional plus
/// sign, then digits; absent when the text is anything else or the value
/// does not fit.
pub fn parse_number(token: &str) -> (r: Option<usize>)
    ensures
        r is Some <==> fits_usize(token@),
        r matches Some(n) ==> n == number_of(token@),
{
    let cs = collect_chars(token);
    parse_usize(&cs)
}

/// Parses one command line of the prompt.
pub fn parse_command(input: &str) -> (r: Result<Command, ParseError>)
    ensures
        r == parsed_command(input@),
{
    let cs = collect_chars(input);
    let ts = split_words(&cs);
    let ghost tws = words_of(input@);
    proof {
        assert(word_views(ts@) == tws);
    }
    if ts.len() == 0 {
        return Ok(Command::Quit);
    }
    proof {
        assert(ts@[0]@ == tws[0]);
        if ts@.len() > 1 {
            assert(ts@[1]@ == tws[1]);
        }
    }
    let cmd = &ts[0];
    if word_matches(cmd, "new") {
        if ts.len() == 1 {
            Ok(Command::New)
        } else {
            Err(ParseError::UnexpectedArgument)
        }
    } else if word_matches(cmd, "rm") || word_matches(cmd, "remove") {
        if ts.len() < 2 {
            Err(ParseError::MissingArgument)
        } else {
            match parse_usize(&ts[1]) {
                None => Err(ParseError::InvalidNumber),
                Some(n) => {
                    if ts.len() > 2 {
                        Err(ParseError::UnexpectedArgument)
                    } else {
                        Ok(Command::Remove(n))
                    }
                },
            }
        }
    } else if word_matches(cmd, "ed") || word_matches(cmd, "edit") {
        if ts.len() < 2 {
            Err(ParseError::MissingArgument)
        } else {
            match parse_usize(&ts[1]) {
                None => Err(ParseError::InvalidNumber),
                Some(n) => {
                    if ts.len() > 2 {
                        Err(ParseError::UnexpectedArgument)
                    } else {
                        Ok(Command::Edit(n))
                    }
                },
            }
        }
    } else if word_matches(cmd, "ls") || word_matches(cmd, "list") {
        if ts.len() == 1 {
            Ok(Command::List)
        } else {
            Err(ParseError::UnexpectedArgument)
        }
    } else if word_matches(cmd, "tk") || word_matches(cmd, "tic") || word_matches(cmd, "tick") {
        if ts.len() == 1 {
            Ok(Command::Tick(1))
        } else {
            match parse_usize(&ts[1]) {
                None => Err(ParseError::InvalidNumber),
                Some(n) => {
                    if ts.len() > 2 {
                        Err(ParseError::UnexpectedArgument)
                    } else {
                        Ok(Command::Tick(n))
                    }
                },
            }
        }
    } else if word_matches(cmd, "h") || word_matches(cmd, "hlp") || word_matches(cmd, "help") {
        if ts.len() == 1 {
            Ok(Command::Help)
        } else {
            Err(ParseError::UnexpectedArgument)
        }
    } else if word_matches(cmd, "q") || word_matches(cmd, "quit") {
        if ts.len() == 1 {
            Ok(Command::Quit)
        } else {
            Err(ParseError::UnexpectedArgument)
        }
    } else {
        Err(ParseError::UnknownCommand)
    }
}

/// Parses a weight word of the builder dialog.
pub fn parse_weight(token: &str) -> (r: Option<Weight>)
    ensures
        r == parsed_weight(token@),
{
    let cs = collect_chars(token);
    if word_matches(&cs, "high") || word_matches(&cs, "hi") || word_matches(&cs, "h")
        || word_matches(&cs, "3") {
        Some(Weight::High)
    } else if word_matches(&cs, "medium") || word_matches(&cs, "med") || word_matches(&cs, "m")
        || word_matches(&cs, "2") {
        Some(Weight::Med)
    } else if word_matches(&cs, "low") || word_matches(&cs, "lo") || word_matches(&cs, "l")
        || word_matches(&cs, "1") {
        Some(Weight::Low)
    } else {
        None
    }
}

} // verus!
