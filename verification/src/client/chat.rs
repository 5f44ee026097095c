//! The chat: lines that came in, and the line that is being typed.

use std::collections::VecDeque;

use vstd::prelude::*;
use vstd::string::*;

use crate::text::{is_control, string_of, control, trim, trimmed};

verus! {

/// Lines shown at once.
pub const CHAT_SHOW_LINES: usize = 6;

/// Lines kept.
pub const CHAT_KEEP_LINES: usize = 32;

/// `buf` after `typed` was typed: control characters are skipped, and nothing
/// goes in beyond `max` characters.
pub open spec fn typed_in(buf: Seq<char>, typed: Seq<char>, max: nat) -> Seq<char>
    decreases typed.len(),
{
    if typed.len() == 0 {
        buf
    } else {
        let before = typed_in(buf, typed.drop_last(), max);
        if !control(typed.last()) && before.len() < max {
            before.push(typed.last())
        } else {
            before
        }
    }
}

/// One character less at the end.
pub open spec fn erased(buf: Seq<char>, backspace: bool) -> Seq<char> {
    if backspace && buf.len() > 0 {
        buf.drop_last()
    } else {
        buf
    }
}

/// Takes what was typed in a frame into a text.
pub fn text_input(buf: &mut Vec<char>, typed: &Vec<char>, backspace: bool, max: usize)
    ensures
        final(buf)@ == erased(typed_in(old(buf)@, typed@, max as nat), backspace),
{
    let mut i: usize = 0;
    assert(typed@.take(0) =~= seq![]);
    while i < typed.len()
        invariant
            i <= typed.len(),
            buf@ == typed_in(old(buf)@, typed@.take(i as int), max as nat),
        decreases typed.len() - i,
    {
        assert(typed@.take(i + 1).drop_last() =~= typed@.take(i as int));
        let c: char = typed[i];
        if !is_control(c) && buf.len() < max {
            buf.push(c);
        }
        i = i + 1;
    }
    assert(typed@.take(typed@.len() as int) =~= typed@);
    if backspace {
        let gone = buf.pop();
    }
}

/// A text never grows beyond its limit.
pub proof fn law_typing_keeps_the_limit(buf: Seq<char>, typed: Seq<char>, max: nat, backspace: bool)
    requires
        buf.len() <= max,
    ensures
        erased(typed_in(buf, typed, max), backspace).len() <= max,
    decreases typed.len(),
{
    if typed.len() > 0 {
        law_typing_keeps_the_limit(buf, typed.drop_last(), max, backspace);
        assert(typed_in(buf, typed.drop_last(), max).len() <= max) by {
            lemma_typed_len(buf, typed.drop_last(), max);
        }
    }
}

proof fn lemma_typed_len(buf: Seq<char>, typed: Seq<char>, max: nat)
    requires
        buf.len() <= max,
    ensures
        typed_in(buf, typed, max).len() <= max,
    decreases typed.len(),
{
    if typed.len() > 0 {
        lemma_typed_len(buf, typed.drop_last(), max);
    }
}

/// A line and when it came.
#[derive(Debug)]
pub struct ChatLine {
    pub text: String,
    /// Grows with the time.
    pub at: u64,
}

/// Keys of a frame that the chat looks at.
#[derive(Debug, Clone, Copy, PartialEq, Eq, Structural)]
pub struct ChatKeys {
    pub enter: bool,
    pub escape: bool,
    pub backspace: bool,
}

/// What the keys of a frame do to the line being typed: enter opens it, enter
/// again sends it unless it is blank, escape drops it.
pub open spec fn line_typed(
    open: bool,
    input: Seq<char>,
    after_open: bool,
    after_input: Seq<char>,
    typed: Seq<char>,
    keys: ChatKeys,
    max: nat,
    sent: Option<String>,
) -> bool {
    if !open {
        &&& sent is None
        &&& after_open == keys.enter
        &&& after_input == input
    } else {
        let text = erased(typed_in(input, typed, max), keys.backspace);
        if keys.escape {
            &&& sent is None
            &&& !after_open
            &&& after_input.len() == 0
        } else if keys.enter {
            &&& !after_open
            &&& after_input.len() == 0
            &&& match sent {
                Some(s) => s@ == trim(text) && s@.len() > 0,
                None => trim(text).len() == 0,
            }
        } else {
            &&& sent is None
            &&& after_open
            &&& after_input == text
        }
    }
}

/// The log and the line being typed.
#[derive(Debug)]
pub struct Chat {
    pub open: bool,
    pub input: Vec<char>,
    pub lines: VecDeque<ChatLine>,
}

/// The lines, with room for one more.
pub open spec fn with_room(lines: Seq<ChatLine>) -> Seq<ChatLine> {
    if lines.len() >= CHAT_KEEP_LINES {
        lines.remove(0)
    } else {
        lines
    }
}

impl Chat {
    pub open spec fn wf(&self) -> bool {
        self.lines@.len() <= CHAT_KEEP_LINES
    }

    pub fn new() -> (c: Chat)
        ensures
            c.wf(),
            !c.open,
            c.input@.len() == 0,
            c.lines@.len() == 0,
    {
        Chat { open: false, input: Vec::new(), lines: VecDeque::new() }
    }

    /// Adds a line; the oldest goes when there are too many.
    pub fn push_line(&mut self, text: String, at: u64)
        requires
            old(self).wf(),
        ensures
            final(self).wf(),
            final(self).open == old(self).open,
            final(self).input == old(self).input,
            final(self).lines@ == with_room(old(self).lines@).push(ChatLine { text, at }),
    {
        if self.lines.len() >= CHAT_KEEP_LINES {
            let gone = self.lines.pop_front();
        }
        self.lines.push_back(ChatLine { text, at });
    }

    /// Adds what somebody said.
    pub fn push_message(&mut self, from: &str, text: &str, at: u64)
        requires
            old(self).wf(),
        ensures
            final(self).wf(),
            final(self).open == old(self).open,
            final(self).input == old(self).input,
            final(self).lines@.len() == with_room(old(self).lines@).len() + 1,
            final(self).lines@.drop_last() == with_room(old(self).lines@),
            final(self).lines@.last().text@ == from@ + ": "@ + text@,
            final(self).lines@.last().at == at,
    {
        let mut line = String::from_str(from);
        line.append(": ");
        line.append(text);
        self.push_line(line, at);
        assert(self.lines@.drop_last() =~= with_room(old(self).lines@));
    }

    /// The indices of the lines to show, the newest first.
    pub fn recent(&self) -> (shown: Vec<usize>)
        ensures
            shown@.len() == (if self.lines@.len() < CHAT_SHOW_LINES {
                self.lines@.len() as int
            } else {
                CHAT_SHOW_LINES as int
            }),
            forall|i: int|
                0 <= i < shown@.len() ==> #[trigger] shown@[i] == self.lines@.len() - 1 - i,
            shown@.len() <= 6,
            shown@.len() < 6 ==> shown@.len() == self.lines@.len(),
    {
        let mut shown: Vec<usize> = Vec::new();
        while shown.len() < CHAT_SHOW_LINES && shown.len() < self.lines.len()
            invariant
                shown@.len() <= CHAT_SHOW_LINES,
                shown@.len() <= self.lines@.len(),
                forall|i: int|
                    0 <= i < shown@.len() ==> #[trigger] shown@[i] == self.lines@.len() - 1 - i,
            decreases self.lines.len() - shown.len(),
        {
            let next: usize = self.lines.len() - 1 - shown.len();
            shown.push(next);
        }
        shown
    }

    /// Handles the keys of a frame. Enter opens the line, enter again sends
    /// it, escape drops it; a blank line sends nothing.
    pub fn handle_input(&mut self, typed: &Vec<char>, keys: ChatKeys, max: usize) -> (sent: Option<
        String,
    >)
        ensures
            final(self).lines == old(self).lines,
            line_typed(
                old(self).open,
                old(self).input@,
                final(self).open,
                final(self).input@,
                typed@,
                keys,
                max as nat,
                sent,
            ),
    {
        if !self.open {
            if keys.enter {
                self.open = true;
            }
            return None;
        }
        text_input(&mut self.input, typed, keys.backspace, max);
        if keys.escape {
            self.open = false;
            self.input = Vec::new();
            return None;
        }
        if keys.enter {
            self.open = false;
            let n: usize = self.input.len();
            let text = string_of(&self.input, 0, n);
            assert(self.input@.subrange(0, n as int) =~= self.input@);
            self.input = Vec::new();
            return trimmed(text.as_str());
        }
        None
    }
}

/// What is typed is added to the line, without its control characters, as far as there is room.
pub proof fn law_typing_adds_at_the_end(buf: Seq<char>, typed: Seq<char>, max: nat)
    requires
        buf.len() <= max,
    ensures
        ({
            let wanted = typed.filter(|c: char| !control(c));
            typed_in(buf, typed, max) == if buf.len() + wanted.len() <= max {
                buf + wanted
            } else {
                (buf + wanted).take(max as int)
            }
        }),
    decreases typed.len(),
{
    reveal(Seq::filter);
    let p = |c: char| !control(c);
    if typed.len() == 0 {
        assert(typed.filter(p) =~= Seq::<char>::empty());
        assert(buf + typed.filter(p) =~= buf);
    } else {
        law_typing_adds_at_the_end(buf, typed.drop_last(), max);
        let before = typed.drop_last().filter(p);
        if p(typed.last()) {
            assert(typed.filter(p) =~= before.push(typed.last()));
            assert(buf + typed.filter(p) =~= (buf + before).push(typed.last()));
            if buf.len() + before.len() >= max {
                assert((buf + typed.filter(p)).take(max as int) =~= (buf + before).take(
                    max as int,
                ));
                assert((buf + before).take((buf + before).len() as int) =~= buf + before);
            }
        } else {
            assert(typed.filter(p) =~= before);
        }
    }
}

/// The backspace key takes off the last character, where there is one.
pub proof fn law_backspace_takes_one(buf: Seq<char>, c: char)
    ensures
        erased(buf.push(c), true) == buf,
        erased(buf, false) == buf,
        erased(Seq::<char>::empty(), true) == Seq::<char>::empty(),
{
    assert(buf.push(c).drop_last() =~= buf);
}

/// The enter key opens the line and sends what is in it, the escape key drops it, and in either
/// case the line is left empty.
pub proof fn law_lines_are_sent_with_enter(
    open: bool,
    input: Seq<char>,
    after_open: bool,
    after_input: Seq<char>,
    keys: ChatKeys,
    max: nat,
    sent: Option<String>,
)
    requires
        line_typed(open, input, after_open, after_input, Seq::empty(), keys, max, sent),
        !keys.backspace,
    ensures
        !open && keys.enter ==> after_open && after_input == input && sent is None,
        !open && !keys.enter ==> !after_open && after_input == input && sent is None,
        open && keys.escape ==> !after_open && after_input.len() == 0 && sent is None,
        open && keys.enter && !keys.escape ==> !after_open && after_input.len() == 0,
        open && keys.enter && !keys.escape && trim(input).len() > 0 ==> sent is Some
            && sent->Some_0@ == trim(input),
        open && keys.enter && !keys.escape && trim(input).len() == 0 ==> sent is None,
        open && !keys.enter && !keys.escape ==> after_open && after_input == input && sent is None,
{
}

/// Of the lines said the last thirty-two are kept.
pub proof fn law_old_lines_make_room(lines: Seq<ChatLine>, line: ChatLine)
    requires
        lines.len() <= 32,
    ensures
        ({
            let all = lines.push(line);
            with_room(lines).push(line) == if all.len() <= 32 {
                all
            } else {
                all.skip(1)
            }
        }),
{
    let all = lines.push(line);
    assert(with_room(lines).push(line) =~= (if all.len() <= 32 {
        all
    } else {
        all.skip(1)
    }));
}

} // verus!
