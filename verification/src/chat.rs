use vstd::prelude::*;
use crate::text::push_char;

verus! {

/// Longest chat line, in characters.
pub const MAX_CHAT_LEN: usize = 100;

/// A key the chat box reacts to.
#[derive(Clone, Copy, Debug, PartialEq, Eq, Structural)]
pub enum ChatKey {
    Enter,
    Escape,
    /// A typed character (backspace arrives as `'\u{8}'`).
    Typed(char),
}

/// The chat box: the line being typed and whether the box is open.
#[derive(Clone, Debug)]
pub struct ChatInput {
    pub text: Vec<char>,
    pub open: bool,
}

/// Printable ASCII other than space.
pub open spec fn is_ascii_graphic(c: char) -> bool {
    '!' <= c && c <= '~'
}

/// What a line sends: its first `MAX_CHAT_LEN` characters.
pub open spec fn chat_line(text: Seq<char>) -> Seq<char> {
    if text.len() <= MAX_CHAT_LEN { text } else { text.take(MAX_CHAT_LEN as int) }
}

/// The chat box after `key`, as (line, open, line sent). Enter opens a
/// closed box, or sends a non-empty line (at most `MAX_CHAT_LEN`
/// characters) and closes it; Escape closes an open box and drops the line;
/// while open, backspace deletes the last character, line breaks are
/// ignored, and printable ASCII or a space is added while the line is
/// shorter than `MAX_CHAT_LEN`.
pub open spec fn chat_after(text: Seq<char>, open: bool, key: ChatKey) -> (Seq<char>, bool, Option<Seq<char>>) {
    match key {
        ChatKey::Enter => if !open {
            (text, true, None)
        } else if text.len() == 0 {
            (text, false, None)
        } else {
            (Seq::empty(), false, Some(chat_line(text)))
        },
        ChatKey::Escape => if open {
            (Seq::empty(), false, None)
        } else {
            (text, open, None)
        },
        ChatKey::Typed(c) => if !open || c == '\r' || c == '\n' {
            (text, open, None)
        } else if c == '\u{8}' {
            (if text.len() > 0 { text.drop_last() } else { text }, open, None)
        } else if text.len() < MAX_CHAT_LEN && (is_ascii_graphic(c) || c == ' ') {
            (text.push(c), open, None)
        } else {
            (text, open, None)
        },
    }
}

/// The keys for typing the characters of `s`, in order.
pub open spec fn typing(s: Seq<char>) -> Seq<ChatKey>
    decreases s.len(),
{
    if s.len() == 0 {
        Seq::empty()
    } else {
        typing(s.drop_last()).push(ChatKey::Typed(s.last()))
    }
}

/// The line and open flag after pressing `keys` in order.
pub open spec fn after_keys(text: Seq<char>, open: bool, keys: Seq<ChatKey>) -> (Seq<char>, bool)
    decreases keys.len(),
{
    if keys.len() == 0 {
        (text, open)
    } else {
        let (t, o) = after_keys(text, open, keys.drop_last());
        let r = chat_after(t, o, keys.last());
        (r.0, r.1)
    }
}

/// Typing into an open box: any printable ASCII character (digits,
/// letters, punctuation) or a space is appended while the line is shorter
/// than `MAX_CHAT_LEN`; nothing is sent and the box stays open.
pub proof fn lemma_typing_appends(text: Seq<char>, c: char)
    requires
        text.len() < MAX_CHAT_LEN,
        ' ' <= c <= '~',
    ensures
        chat_after(text, true, ChatKey::Typed(c)) == (text.push(c), true, None::<Seq<char>>),
{
}

/// Backspace in an open box deletes the line's last character, if any.
pub proof fn lemma_backspace_deletes(text: Seq<char>)
    ensures
        chat_after(text, true, ChatKey::Typed('\u{8}')).0 == (if text.len() > 0 { text.drop_last() } else { text }),
        chat_after(text, true, ChatKey::Typed('\u{8}')).1,
        chat_after(text, true, ChatKey::Typed('\u{8}')).2 is None,
{
}

/// A full line takes nothing more, and a closed box ignores typing.
pub proof fn lemma_typing_never_overflows(text: Seq<char>, open: bool, c: char)
    ensures
        chat_after(text, open, ChatKey::Typed(c)).0.len() <= (if text.len() < MAX_CHAT_LEN { MAX_CHAT_LEN as int } else { text.len() as int }),
        !open ==> chat_after(text, open, ChatKey::Typed(c)) == (text, false, None::<Seq<char>>),
        chat_after(text, open, ChatKey::Typed(c)).2 is None,
{
}

/// Enter on an open box with a line of at most `MAX_CHAT_LEN` characters
/// sends exactly that line and leaves the box closed and empty; on an open
/// empty box it only closes it; on a closed box it opens it, line kept.
pub proof fn lemma_enter_sends_the_line(text: Seq<char>)
    ensures
        0 < text.len() <= MAX_CHAT_LEN ==> chat_after(text, true, ChatKey::Enter) == (Seq::<char>::empty(), false, Some(text)),
        text.len() == 0 ==> chat_after(text, true, ChatKey::Enter) == (text, false, None::<Seq<char>>),
        chat_after(text, false, ChatKey::Enter) == (text, true, None::<Seq<char>>),
{
}

/// Escape on an open box drops the line unsent and closes the box.
pub proof fn lemma_escape_drops_the_line(text: Seq<char>)
    ensures
        chat_after(text, true, ChatKey::Escape) == (Seq::<char>::empty(), false, None::<Seq<char>>),
{
}

/// What is typed is what is sent: typing a line of printable ASCII and
/// spaces, at most `MAX_CHAT_LEN` long, into an open empty box leaves
/// exactly that line in the box, open, and Enter then sends it.
pub proof fn lemma_typed_line_is_sent(s: Seq<char>)
    requires
        s.len() <= MAX_CHAT_LEN,
        forall|i: int| 0 <= i < s.len() ==> ' ' <= #[trigger] s[i] <= '~',
    ensures
        after_keys(Seq::empty(), true, typing(s)) == (s, true),
        s.len() > 0 ==> chat_after(s, true, ChatKey::Enter).2 == Some(s),
    decreases s.len(),
{
    if s.len() > 0 {
        let p = s.drop_last();
        assert forall|i: int| 0 <= i < p.len() implies ' ' <= #[trigger] p[i] <= '~' by {
            assert(p[i] == s[i]);
        }
        lemma_typed_line_is_sent(p);
        assert(typing(s).drop_last() =~= typing(p));
        lemma_typing_appends(p, s.last());
        assert(p.push(s.last()) =~= s);
    } else {
        assert(s =~= Seq::<char>::empty());
    }
}

impl ChatInput {
    /// A closed, empty chat box.
    pub fn new() -> (c: Self)
        ensures
            c.text@ == Seq::<char>::empty(),
            !c.open,
    {
        ChatInput { text: Vec::new(), open: false }
    }

    /// React to `key`; returns the line to send, if Enter sent one.
    pub fn press(&mut self, key: ChatKey) -> (sent: Option<String>)
        ensures
            ({
                let (text, open, line) = chat_after(old(self).text@, old(self).open, key);
                &&& final(self).text@ == text
                &&& final(self).open == open
                &&& match sent {
                    Some(s) => line == Some(s@),
                    None => line is None,
                }
            }),
    {
        match key {
            ChatKey::Enter => {
                if !self.open {
                    self.open = true;
                    None
                } else if self.text.len() == 0 {
                    self.open = false;
                    None
                } else {
                    let mut line = String::new();
                    let mut i: usize = 0;
                    while i < self.text.len() && i < MAX_CHAT_LEN
                        invariant
                            i <= self.text@.len(),
                            i <= MAX_CHAT_LEN,
                            line@ == self.text@.take(i as int),
                        decreases self.text@.len() - i,
                    {
                        push_char(&mut line, self.text[i]);
                        i = i + 1;
                        assert(line@ =~= self.text@.take(i as int));
                    }
                    assert(line@ =~= chat_line(self.text@));
                    self.text = Vec::new();
                    self.open = false;
                    Some(line)
                }
            },
            ChatKey::Escape => {
                if self.open {
                    self.text = Vec::new();
                    self.open = false;
                }
                None
            },
            ChatKey::Typed(c) => {
                if !self.open || c == '\r' || c == '\n' {
                } else if c == '\u{8}' {
                    if self.text.len() > 0 {
                        let _ = self.text.pop();
                    }
                } else if self.text.len() < MAX_CHAT_LEN && (('!' <= c && c <= '~') || c == ' ') {
                    self.text.push(c);
                }
                None
            },
        }
    }
}

} // verus!
