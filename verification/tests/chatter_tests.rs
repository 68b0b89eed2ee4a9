use edgen_core::chatter::{
    answered, opening, summarize_counts, ChainPlan, CountSummary, Reply, ReplyEvent, ReplyStep, Turn,
};

#[test]
fn an_empty_plan_has_no_conversation() {
    let plan = ChainPlan::new();
    assert_eq!(plan.open(), 0);
    assert!(plan.finish().is_empty());
}

#[test]
fn requests_are_cut_into_conversations() {
    let mut plan = ChainPlan::new();
    let ends = [false, false, true, true, false, true, false, false];
    let mut open_before = Vec::new();
    for end in ends {
        open_before.push(plan.open());
        plan.add_request(end);
    }
    assert_eq!(open_before, vec![0, 1, 2, 0, 0, 1, 0, 1]);
    assert_eq!(plan.open(), 2);
    let chains = plan.finish();
    assert_eq!(chains, vec![3, 1, 2, 2]);
    assert_eq!(chains.iter().sum::<usize>(), ends.len());
}

#[test]
fn a_plan_that_ends_on_a_cut_has_no_open_conversation() {
    let mut plan = ChainPlan::new();
    plan.add_request(false);
    plan.add_request(true);
    assert_eq!(plan.open(), 0);
    assert_eq!(plan.finish(), vec![2]);
}

#[test]
fn every_request_alone() {
    let mut plan = ChainPlan::new();
    for _ in 0..4 {
        plan.add_request(true);
    }
    assert_eq!(plan.finish(), vec![1, 1, 1, 1]);
}

#[test]
fn one_long_conversation() {
    let mut plan = ChainPlan::new();
    for _ in 0..5 {
        plan.add_request(false);
    }
    assert_eq!(plan.finish(), vec![5]);
}

#[test]
fn counts_are_summed_up() {
    assert_eq!(
        summarize_counts(vec![7, 3, 9, 1, 5]),
        CountSummary { total: 25, count: 5, min: 1, max: 9, median: 5 }
    );
}

#[test]
fn the_median_of_an_even_number_is_the_upper_middle() {
    assert_eq!(
        summarize_counts(vec![40, 10, 30, 20]),
        CountSummary { total: 100, count: 4, min: 10, max: 40, median: 30 }
    );
    assert_eq!(
        summarize_counts(vec![2, 1]),
        CountSummary { total: 3, count: 2, min: 1, max: 2, median: 2 }
    );
}

#[test]
fn a_single_count_is_everything() {
    assert_eq!(
        summarize_counts(vec![12]),
        CountSummary { total: 12, count: 1, min: 12, max: 12, median: 12 }
    );
}

#[test]
fn equal_counts_and_descending_counts() {
    assert_eq!(
        summarize_counts(vec![4, 4, 4]),
        CountSummary { total: 12, count: 3, min: 4, max: 4, median: 4 }
    );
    assert_eq!(
        summarize_counts(vec![9, 8, 7, 6, 5, 4, 3]),
        CountSummary { total: 42, count: 7, min: 3, max: 9, median: 6 }
    );
}

#[test]
fn the_sum_of_counts_does_not_overflow() {
    let summary = summarize_counts(vec![usize::MAX, usize::MAX, 1]);
    assert_eq!(summary.total, 2 * (usize::MAX as u128) + 1);
    assert_eq!(summary.min, 1);
    assert_eq!(summary.median, usize::MAX);
    assert_eq!(summary.max, usize::MAX);
}

fn message(text: &str) -> ReplyEvent {
    ReplyEvent::Message(text.to_string())
}

#[test]
fn a_new_reply_is_empty_and_not_reported() {
    let reply = Reply::new();
    assert_eq!(reply.tokens(), 0);
    assert!(!reply.is_reported());
    assert!(reply.accepts_message(1));
    assert!(!reply.accepts_message(0));
    assert_eq!(reply.into_text(), "");
}

#[test]
fn messages_are_counted_and_their_texts_joined() {
    let mut reply = Reply::new();
    assert_eq!(reply.on_event(&ReplyEvent::Open, 10), ReplyStep::Read);
    assert_eq!(reply.on_event(&message("Hel"), 10), ReplyStep::Read);
    assert_eq!(reply.on_event(&message("lo"), 10), ReplyStep::Read);
    assert_eq!(reply.on_event(&message(""), 10), ReplyStep::Read);
    assert_eq!(reply.on_event(&message(", world"), 10), ReplyStep::Read);
    assert_eq!(reply.on_event(&ReplyEvent::Ended, 10), ReplyStep::Read);
    assert_eq!(reply.tokens(), 4);
    assert!(reply.is_reported());
    assert_eq!(reply.into_text(), "Hello, world");
}

#[test]
fn a_message_at_the_limit_stops_the_reading() {
    let mut reply = Reply::new();
    assert_eq!(reply.on_event(&message("a"), 2), ReplyStep::Read);
    assert_eq!(reply.on_event(&message("b"), 2), ReplyStep::Read);
    assert!(!reply.accepts_message(2));
    assert_eq!(reply.on_event(&message("c"), 2), ReplyStep::CloseAndStop);
    assert_eq!(reply.on_event(&message("d"), 2), ReplyStep::CloseAndStop);
    assert_eq!(reply.tokens(), 2);
    assert_eq!(reply.into_text(), "ab");
}

#[test]
fn a_limit_of_nothing_accepts_nothing() {
    let mut reply = Reply::new();
    assert_eq!(reply.on_event(&ReplyEvent::Open, 0), ReplyStep::Read);
    assert_eq!(reply.on_event(&message("a"), 0), ReplyStep::CloseAndStop);
    assert!(!reply.is_reported());
    assert_eq!(reply.into_text(), "");
}

#[test]
fn a_failure_closes_the_stream_and_keeps_what_arrived() {
    let mut reply = Reply::new();
    assert_eq!(reply.on_event(&message("so far"), 5), ReplyStep::Read);
    assert_eq!(reply.on_event(&ReplyEvent::Failed, 5), ReplyStep::Close);
    assert_eq!(reply.on_event(&ReplyEvent::Failed, 5), ReplyStep::Close);
    assert_eq!(reply.tokens(), 1);
    assert!(reply.is_reported());
    assert_eq!(reply.into_text(), "so far");
}

#[test]
fn a_reply_without_a_message_is_not_reported() {
    let mut reply = Reply::new();
    assert_eq!(reply.on_event(&ReplyEvent::Open, 5), ReplyStep::Read);
    assert_eq!(reply.on_event(&ReplyEvent::Failed, 5), ReplyStep::Close);
    assert_eq!(reply.on_event(&ReplyEvent::Ended, 5), ReplyStep::Read);
    assert!(!reply.is_reported());
    assert_eq!(reply.tokens(), 0);
}

#[test]
fn the_largest_limit_does_not_overflow() {
    let mut reply = Reply::new();
    for _ in 0..3 {
        assert_eq!(reply.on_event(&message("x"), usize::MAX), ReplyStep::Read);
    }
    assert_eq!(reply.tokens(), 3);
}

#[test]
fn a_conversation_opens_with_the_system_and_the_user() {
    let turns = opening("be kind".to_string(), "Hello!".to_string());
    assert_eq!(
        turns,
        vec![Turn::System("be kind".to_string()), Turn::User("Hello!".to_string())]
    );
}

#[test]
fn every_exchange_adds_a_reply_and_a_prompt() {
    let mut turns = opening("be kind".to_string(), "Hello!".to_string());
    answered(&mut turns, "Hi.".to_string(), "Tell me more.".to_string());
    answered(&mut turns, String::new(), "Please continue.".to_string());
    assert_eq!(
        turns,
        vec![
            Turn::System("be kind".to_string()),
            Turn::User("Hello!".to_string()),
            Turn::Assistant("Hi.".to_string()),
            Turn::User("Tell me more.".to_string()),
            Turn::Assistant(String::new()),
            Turn::User("Please continue.".to_string()),
        ]
    );
    assert_eq!(turns.len(), 2 + 2 * 2);
}
