use vstd::prelude::*;

verus! {

/// The message carried by one fragment of a streamed chat reply.
#[derive(Clone, Debug, PartialEq)]
pub struct Message {
    pub role: String,
    pub content: String,
}

/// One fragment of a streamed chat reply.
#[derive(Clone, Debug, PartialEq)]
pub struct OllamaChatResponse {
    pub model: String,
    pub created_at: String,
    pub message: Message,
    pub done: bool,
}

impl Default for Message {
    fn default() -> (r: Message)
        ensures
            r.role@ == Seq::<char>::empty(),
            r.content@ == Seq::<char>::empty(),
    {
        Message { role: String::new(), content: String::new() }
    }
}

impl Default for OllamaChatResponse {
    fn default() -> (r: OllamaChatResponse)
        ensures
            r.model@ == Seq::<char>::empty(),
            r.created_at@ == Seq::<char>::empty(),
            r.message.role@ == Seq::<char>::empty(),
            r.message.content@ == Seq::<char>::empty(),
            !r.done,
    {
        OllamaChatResponse {
            model: String::new(),
            created_at: String::new(),
            message: Message { role: String::new(), content: String::new() },
            done: false,
        }
    }
}

/// The answer gathered so far from a streamed reply: the text of every
/// fragment that could be read, in order, and how many could not be read.
pub struct AnswerStream {
    text: String,
    dropped: usize,
}

impl AnswerStream {
    /// The text gathered so far.
    pub closed spec fn text_view(&self) -> Seq<char> {
        self.text@
    }

    /// The number of unreadable fragments so far, capped at `usize::MAX`.
    pub closed spec fn dropped_view(&self) -> nat {
        self.dropped as nat
    }

    /// Nothing gathered yet.
    pub fn new() -> (r: AnswerStream)
        ensures
            r.text_view() == Seq::<char>::empty(),
            r.dropped_view() == 0,
    {
        AnswerStream { text: String::new(), dropped: 0 }
    }

    /// Takes the next fragment: a readable one adds its message text, an
    /// unreadable one (`None`) is counted and otherwise skipped.
    pub fn accept(&mut self, fragment: Option<OllamaChatResponse>)
        ensures
            fragment is Some ==> final(self).text_view() == old(self).text_view()
                + fragment->0.message.content@ && final(self).dropped_view()
                == old(self).dropped_view(),
            fragment is None ==> final(self).text_view() == old(self).text_view()
                && final(self).dropped_view() == if old(self).dropped_view() < usize::MAX {
                old(self).dropped_view() + 1
            } else {
                old(self).dropped_view()
            },
    {
        match fragment {
            Some(f) => {
                self.text.append(f.message.content.as_str());
            },
            None => {
                if self.dropped < usize::MAX {
                    self.dropped = self.dropped + 1;
                }
            },
        }
    }

    /// The text gathered so far.
    pub fn text(&self) -> (r: &String)
        ensures
            r@ == self.text_view(),
    {
        &self.text
    }

    /// The number of unreadable fragments so far.
    pub fn dropped(&self) -> (r: usize)
        ensures
            r == self.dropped_view(),
    {
        self.dropped
    }

    /// The complete answer.
    pub fn into_answer(self) -> (r: String)
        ensures
            r@ == self.text_view(),
    {
        self.text
    }
}

} // verus!
