use rag_core::conversation::{build_prompt, ChatMessage, ConversationContext, Role};
use rag_core::database::SimilarDocument;
use rag_core::normalize::{document_embedding_text, query_embedding_text};
use rag_core::stream::{AnswerStream, Message, OllamaChatResponse};

fn candidate(source: &str, content: &str, score: i64) -> SimilarDocument {
    SimilarDocument { source: source.to_string(), content: content.to_string(), score }
}

fn fragment(text: &str) -> OllamaChatResponse {
    OllamaChatResponse {
        model: "mistral".to_string(),
        created_at: "now".to_string(),
        message: Message { role: "assistant".to_string(), content: text.to_string() },
        done: false,
    }
}

fn turns(h: &Vec<ChatMessage>) -> Vec<(Role, String)> {
    h.iter().map(|m| (m.role, m.content.clone())).collect()
}

const HEAD: &str =
    "Based on the following context and this conversation, answer my next question.\n\nContext: ";

#[test]
fn role_names() {
    assert_eq!(Role::User.as_str(), "user");
    assert_eq!(Role::Assistant.as_str(), "assistant");
}

#[test]
fn prompt_with_two_candidates() {
    let ctx = vec![candidate("a.md", "alpha", 3), candidate("b.md", "beta", 2)];
    let p = build_prompt("What?", &ctx);
    let expected = format!(
        "{HEAD}File: a.md\n```\nalpha\n```\n\nFile: b.md\n```\nbeta\n```\n\nQuestion: What?"
    );
    assert_eq!(p, expected);
}

#[test]
fn prompt_without_candidates() {
    let p = build_prompt("Why?", &vec![]);
    assert_eq!(p, format!("{HEAD}\n\nQuestion: Why?"));
}

#[test]
fn assemble_prompt_appends_to_copy_of_history() {
    let mut c = ConversationContext::new();
    c.record_exchange("q0".to_string(), "a0".to_string());
    let msgs = c.assemble_prompt("next", &vec![candidate("f", "text", 1)]);
    assert_eq!(msgs.len(), 3);
    assert_eq!(msgs[0].role, Role::User);
    assert_eq!(msgs[0].content, "q0");
    assert_eq!(msgs[1].role, Role::Assistant);
    assert_eq!(msgs[1].content, "a0");
    assert_eq!(msgs[2].role, Role::User);
    assert_eq!(msgs[2].content, format!("{HEAD}File: f\n```\ntext\n```\n\nQuestion: next"));
    assert_eq!(c.history().len(), 2);
}

#[test]
fn history_keeps_commit_order() {
    let mut c = ConversationContext::new();
    c.record_exchange("q1".to_string(), "a1".to_string());
    c.record_exchange("q2".to_string(), "a2".to_string());
    assert_eq!(
        turns(c.history()),
        vec![
            (Role::User, "q1".to_string()),
            (Role::Assistant, "a1".to_string()),
            (Role::User, "q2".to_string()),
            (Role::Assistant, "a2".to_string()),
        ]
    );
}

#[test]
fn session_commits_after_answer() {
    let mut c = ConversationContext::new();
    assert!(!c.is_awaiting_answer());
    let msgs = c.begin_question("q".to_string(), &vec![]).unwrap();
    assert_eq!(msgs.len(), 1);
    assert!(c.is_awaiting_answer());
    assert!(c.history().is_empty());
    assert!(c.begin_question("other".to_string(), &vec![]).is_none());
    assert!(c.finish_answer("a".to_string()));
    assert!(!c.is_awaiting_answer());
    assert_eq!(turns(c.history()), vec![(Role::User, "q".to_string()), (Role::Assistant, "a".to_string())]);
    assert!(!c.finish_answer("late".to_string()));
    assert_eq!(c.history().len(), 2);
}

#[test]
fn session_abandon_keeps_history() {
    let mut c = ConversationContext::new();
    c.begin_question("q".to_string(), &vec![]).unwrap();
    c.abandon_question();
    assert!(!c.is_awaiting_answer());
    assert!(c.history().is_empty());
}

#[test]
fn chat_message_duplicate() {
    let m = ChatMessage { role: Role::Assistant, content: "hi".to_string() };
    let d = m.duplicate();
    assert_eq!(d.role, Role::Assistant);
    assert_eq!(d.content, "hi");
}

#[test]
fn document_text_is_lower_case() {
    assert_eq!(document_embedding_text("Hello World"), "hello world");
}

#[test]
fn query_text_is_trimmed_and_lower_case() {
    assert_eq!(query_embedding_text("  What IS Rust?\n"), "what is rust?");
}

#[test]
fn stream_gathers_readable_fragments() {
    let mut s = AnswerStream::new();
    s.accept(Some(fragment("Hel")));
    s.accept(None);
    s.accept(Some(fragment("lo")));
    assert_eq!(s.text(), "Hello");
    assert_eq!(s.dropped(), 1);
    assert_eq!(s.into_answer(), "Hello");
}

#[test]
fn chat_response_default_is_empty() {
    let r = OllamaChatResponse::default();
    assert_eq!(r.model, "");
    assert_eq!(r.message, Message::default());
    assert!(!r.done);
}
