use vstd::prelude::*;

use crate::database::SimilarDocument;

verus! {

/// Who spoke a turn of the dialogue.
#[derive(Clone, Copy, Debug, PartialEq, Eq, Structural)]
pub enum Role {
    User,
    Assistant,
}

/// The wire name of a role.
pub open spec fn role_name(r: Role) -> Seq<char> {
    match r {
        Role::User => "user"@,
        Role::Assistant => "assistant"@,
    }
}

impl Role {
    /// The name by which the chat endpoint knows this role.
    pub fn as_str(&self) -> (r: &'static str)
        ensures
            r@ == role_name(*self),
    {
        match self {
            Role::User => "user",
            Role::Assistant => "assistant",
        }
    }
}

/// One turn of the dialogue.
pub struct ChatMessage {
    pub role: Role,
    pub content: String,
}

/// A turn seen mathematically.
pub type TurnView = (Role, Seq<char>);

impl ChatMessage {
    pub open spec fn view(&self) -> TurnView {
        (self.role, self.content@)
    }

    /// A copy of this turn.
    pub fn duplicate(&self) -> (r: ChatMessage)
        ensures
            r.view() == self.view(),
    {
        ChatMessage { role: self.role, content: self.content.clone() }
    }
}

pub open spec fn turns_view(t: Seq<ChatMessage>) -> Seq<TurnView> {
    t.map_values(|m: ChatMessage| m.view())
}

/// The labelled block that presents one retrieved record in a prompt.
pub open spec fn context_block(source: Seq<char>, content: Seq<char>) -> Seq<char> {
    "File: "@ + source + "\n```\n"@ + content + "\n```"@
}

/// The blocks of all retrieved records, in order, separated by blank lines.
pub open spec fn context_text(c: Seq<(Seq<char>, Seq<char>)>) -> Seq<char>
    decreases c.len(),
{
    if c.len() == 0 {
        Seq::empty()
    } else if c.len() == 1 {
        context_block(c[0].0, c[0].1)
    } else {
        context_text(c.drop_last()) + "\n\n"@ + context_block(c.last().0, c.last().1)
    }
}

/// The (source, content) pairs of retrieved records.
pub open spec fn sources_and_contents(c: Seq<SimilarDocument>) -> Seq<(Seq<char>, Seq<char>)> {
    c.map_values(|d: SimilarDocument| (d.source@, d.content@))
}

/// The grounded prompt: an instruction, the retrieved context, the question.
pub open spec fn prompt_text(question: Seq<char>, c: Seq<(Seq<char>, Seq<char>)>) -> Seq<char> {
    "Based on the following context and this conversation, answer my next question.\n\nContext: "@
        + context_text(c) + "\n\nQuestion: "@ + question
}

/// The history after one committed exchange.
pub open spec fn with_exchange(h: Seq<TurnView>, question: Seq<char>, answer: Seq<char>) -> Seq<
    TurnView,
> {
    h.push((Role::User, question)).push((Role::Assistant, answer))
}

/// Builds the prompt that asks `question` over the retrieved `context`.
pub fn build_prompt(question: &str, context: &Vec<SimilarDocument>) -> (r: String)
    ensures
        r@ == prompt_text(question@, sources_and_contents(context@)),
{
    let ghost c = sources_and_contents(context@);
    let mut blocks = String::new();
    let mut i: usize = 0;
    while i < context.len()
        invariant
            0 <= i <= context@.len(),
            c == sources_and_contents(context@),
            blocks@ == context_text(c.subrange(0, i as int)),
        decreases context@.len() - i,
    {
        let ghost before = blocks@;
        if i > 0 {
            blocks.append("\n\n");
        }
        blocks.append("File: ");
        blocks.append(context[i].source.as_str());
        blocks.append("\n```\n");
        blocks.append(context[i].content.as_str());
        blocks.append("\n```");
        proof {
            let s = c.subrange(0, i + 1);
            assert(s.drop_last() =~= c.subrange(0, i as int));
            assert(s.last() == c[i as int]);
            if i == 0 {
                assert(blocks@ =~= context_block(c[0].0, c[0].1));
            } else {
                assert(blocks@ =~= before + "\n\n"@ + context_block(s.last().0, s.last().1));
            }
        }
        i = i + 1;
    }
    assert(c.subrange(0, context@.len() as int) =~= c);
    let mut r = String::new();
    r.append(
        "Based on the following context and this conversation, answer my next question.\n\nContext: ",
    );
    r.append(blocks.as_str());
    r.append("\n\nQuestion: ");
    r.append(question);
    r
}

/// Where a session stands: between questions, or waiting for an answer to
/// the question it holds.
pub struct ConversationContext {
    history: Vec<ChatMessage>,
    pending: Option<String>,
}

impl ConversationContext {
    /// The committed turns, oldest first.
    pub closed spec fn view(&self) -> Seq<TurnView> {
        turns_view(self.history@)
    }

    /// The question that waits for its answer, if any.
    pub closed spec fn pending_question(&self) -> Option<Seq<char>> {
        match self.pending {
            Some(q) => Some(q@),
            None => None,
        }
    }

    /// A session with no history, between questions.
    pub fn new() -> (r: ConversationContext)
        ensures
            r@ == Seq::<TurnView>::empty(),
            r.pending_question() is None,
    {
        let r = ConversationContext { history: Vec::new(), pending: None };
        assert(r@ =~= Seq::<TurnView>::empty());
        r
    }

    /// The committed turns, oldest first.
    pub fn history(&self) -> (r: &Vec<ChatMessage>)
        ensures
            turns_view(r@) == self@,
    {
        &self.history
    }

    /// Whether a question waits for its answer.
    pub fn is_awaiting_answer(&self) -> (r: bool)
        ensures
            r == self.pending_question() is Some,
    {
        self.pending.is_some()
    }

    /// The messages to send for `question`: a copy of the history followed by
    /// the grounded prompt as a user turn. The history itself is not changed.
    pub fn assemble_prompt(&self, question: &str, candidates: &Vec<SimilarDocument>) -> (r: Vec<
        ChatMessage,
    >)
        ensures
            turns_view(r@) == self@.push(
                (Role::User, prompt_text(question@, sources_and_contents(candidates@))),
            ),
    {
        let mut out: Vec<ChatMessage> = Vec::new();
        let mut i: usize = 0;
        while i < self.history.len()
            invariant
                0 <= i <= self.history@.len(),
                turns_view(out@) =~= self@.subrange(0, i as int),
            decreases self.history@.len() - i,
        {
            let ghost before = out@;
            out.push(self.history[i].duplicate());
            assert(turns_view(out@) =~= turns_view(before).push(self@[i as int]));
            i = i + 1;
        }
        assert(self@.subrange(0, self@.len() as int) =~= self@);
        let ghost before = out@;
        let prompt = build_prompt(question, candidates);
        out.push(ChatMessage { role: Role::User, content: prompt });
        assert(turns_view(out@) =~= turns_view(before).push(
            (Role::User, prompt_text(question@, sources_and_contents(candidates@))),
        ));
        out
    }

    /// Commits a question and its answer: a user turn, then an assistant turn.
    pub fn record_exchange(&mut self, question: String, answer: String)
        ensures
            final(self)@ == with_exchange(old(self)@, question@, answer@),
            final(self).pending_question() == old(self).pending_question(),
    {
        let ghost before = self.history@;
        self.history.push(ChatMessage { role: Role::User, content: question });
        self.history.push(ChatMessage { role: Role::Assistant, content: answer });
        assert(self@ =~= with_exchange(turns_view(before), question@, answer@));
    }

    /// Takes a question when the session is between questions: the session
    /// then waits for its answer, and the messages to send come back. While a
    /// question already waits, nothing changes and `None` comes back.
    pub fn begin_question(&mut self, question: String, candidates: &Vec<SimilarDocument>) -> (r:
        Option<Vec<ChatMessage>>)
        ensures
            final(self)@ == old(self)@,
            old(self).pending_question() is Some ==> r is None && final(self).pending_question()
                == old(self).pending_question(),
            old(self).pending_question() is None ==> r is Some && final(self).pending_question()
                == Some(question@) && turns_view(r->0@) == old(self)@.push(
                (Role::User, prompt_text(question@, sources_and_contents(candidates@))),
            ),
    {
        if self.pending.is_some() {
            return None;
        }
        let messages = self.assemble_prompt(question.as_str(), candidates);
        self.pending = Some(question);
        Some(messages)
    }

    /// Commits the waiting question with its complete answer and returns to
    /// between questions. Returns false, changing nothing, when no question
    /// waits.
    pub fn finish_answer(&mut self, answer: String) -> (r: bool)
        ensures
            r == old(self).pending_question() is Some,
            final(self).pending_question() is None,
            r ==> final(self)@ == with_exchange(
                old(self)@,
                old(self).pending_question()->0,
                answer@,
            ),
            !r ==> final(self)@ == old(self)@,
    {
        match self.pending.take() {
            Some(q) => {
                self.record_exchange(q, answer);
                true
            },
            None => false,
        }
    }

    /// Drops the waiting question, if any, without touching the history: the
    /// query failed and the session goes on.
    pub fn abandon_question(&mut self)
        ensures
            final(self)@ == old(self)@,
            final(self).pending_question() is None,
    {
        self.pending = None;
    }
}

/// Two exchanges committed one after the other leave their four turns in
/// commit order: question, answer, question, answer.
pub proof fn lemma_history_order(
    h: Seq<TurnView>,
    q1: Seq<char>,
    a1: Seq<char>,
    q2: Seq<char>,
    a2: Seq<char>,
)
    ensures
        with_exchange(with_exchange(h, q1, a1), q2, a2) == h + seq![
            (Role::User, q1),
            (Role::Assistant, a1),
            (Role::User, q2),
            (Role::Assistant, a2),
        ],
        with_exchange(with_exchange(Seq::empty(), q1, a1), q2, a2) == seq![
            (Role::User, q1),
            (Role::Assistant, a1),
            (Role::User, q2),
            (Role::Assistant, a2),
        ],
{
    assert(with_exchange(with_exchange(h, q1, a1), q2, a2) =~= h + seq![
        (Role::User, q1),
        (Role::Assistant, a1),
        (Role::User, q2),
        (Role::Assistant, a2),
    ]);
    assert(with_exchange(with_exchange(Seq::empty(), q1, a1), q2, a2) =~= seq![
        (Role::User, q1),
        (Role::Assistant, a1),
        (Role::User, q2),
        (Role::Assistant, a2),
    ]);
}

} // verus!
