//! The decisions around one request: from the text of a message that
//! mentions the bot to the lookups it needs and the reply it gets. The
//! caller performs each action and hands back what came of it.
use vstd::prelude::*;
use crate::parser::parse_range_specifications;
use crate::post::{batches, plan_replies, Outgoing, Res};
use crate::range_spec::{specs_of_text, RangeSpec};
use crate::resolver::{calculate_post_numbers, needs_max, needs_upper_bound, resolved};

verus! {

/// Marks a mention of a user in a message: `<@123>` or `<@!123>`.
pub const MENTION_PATTERN: &'static str = "<@!?\\d+>";

/// Reply to a message that holds no usable range expression.
pub const USAGE_REPLY: &'static str = "使い方: @fetch-post 123 または @fetch-post 123-128 または @fetch-post 123- または @fetch-post 123,124-128 または @fetch-post ^322,?324-326,?^325";

/// Reply where the store could not be queried.
pub const STORE_ERROR_REPLY: &'static str = "データベースエラーが発生しました。";

/// Reply where the expression selects no number.
pub const NO_NUMBERS_REPLY: &'static str = "指定された範囲には表示するレスがありません。";

/// Reply where none of the selected posts exists.
pub const NOT_FOUND_REPLY: &'static str = "指定された範囲のレスが見つかりませんでした。";

/// What `text` becomes once every match of the regular expression
/// `pattern` in it is removed.
pub uninterp spec fn matches_removed(pattern: Seq<char>, text: Seq<char>) -> Seq<char>;

/// Relies on `regex::Regex::new`, which compiles `pattern` or refuses it, and
/// on `Regex::replace_all` with an empty replacement, which removes every
/// non-overlapping match from `text`. `Regex::new` refuses only a pattern
/// that is invalid or compiles past its size limit; the mention pattern is
/// neither.
#[verifier::external_body]
fn remove_matches(pattern: &str, text: &str) -> (r: Option<String>)
    ensures
        r matches Some(t) ==> t@ == matches_removed(pattern@, text@),
        pattern@ == MENTION_PATTERN@ ==> r is Some,
{
    match regex::Regex::new(pattern) {
        Ok(re) => Some(re.replace_all(text, "").into_owned()),
        Err(_) => None,
    }
}

/// The text of a message without the mentions in it.
pub fn clean_content(content: &str) -> (r: String)
    ensures
        r@ == matches_removed(MENTION_PATTERN@, content@),
{
    match remove_matches(MENTION_PATTERN, content) {
        Some(t) => t,
        None => String::from_str(content),
    }
}

/// Where a request stands.
#[derive(Debug)]
pub enum Session {
    /// No message has arrived yet.
    Idle,
    /// The specifications wait for the largest post number.
    AwaitingMax(Vec<RangeSpec>),
    /// The posts of the selected numbers were asked for.
    AwaitingPosts,
    /// The request is answered.
    Done,
}

/// What happened since the last action.
#[derive(Debug)]
pub enum Event {
    /// A message mentioned the bot; this is its text without the mentions.
    Mentioned(String),
    /// The largest stored post number, 0 where none is stored.
    MaxFound(i32),
    /// The stored posts among the numbers that were asked for, ascending.
    PostsFound(Vec<Res>),
    /// The store could not be queried.
    StoreFailed,
}

/// What to do next.
#[derive(Debug)]
pub enum Action {
    /// Reply with this text; the request is then answered.
    Reply(String),
    /// Ask the store for the largest post number.
    FetchMax,
    /// Ask the store for the posts with these numbers.
    FetchPosts(Vec<i32>),
    /// Send these messages; the request is then answered.
    Send(Vec<Outgoing>),
    /// Nothing: the event does not fit where the request stands.
    Ignore,
}

/// Whether `action` is a reply with the text `text`.
pub open spec fn is_reply(action: Action, text: Seq<char>) -> bool {
    (action matches Action::Reply(m) && m@ == text)
}

/// Where a request goes once the numbers `numbers` are selected.
pub open spec fn after_numbers(numbers: Seq<i32>, next: Session, action: Action) -> bool {
    if numbers.len() == 0 {
        next is Done && is_reply(action, NO_NUMBERS_REPLY@)
    } else {
        next is AwaitingPosts && (action matches Action::FetchPosts(v) && v@ == numbers)
    }
}

/// The step that `event` takes a request in `session` to: the next session
/// and the action to take.
pub open spec fn step_spec(
    session: Session,
    event: Event,
    prefix: Seq<char>,
    next: Session,
    action: Action,
) -> bool {
    match (session, event) {
        (Session::Idle, Event::Mentioned(text)) => {
            let specs = specs_of_text(text@);
            if specs.len() == 0 {
                next is Done && is_reply(action, USAGE_REPLY@)
            } else if needs_max(specs) {
                (next matches Session::AwaitingMax(v) && v@ == specs) && action is FetchMax
            } else {
                after_numbers(resolved(specs, 0), next, action)
            }
        },
        (Session::AwaitingMax(specs), Event::MaxFound(max)) => after_numbers(
            resolved(specs@, max as int),
            next,
            action,
        ),
        (Session::AwaitingMax(_), Event::StoreFailed) => next is Done && is_reply(
            action,
            STORE_ERROR_REPLY@,
        ),
        (Session::AwaitingPosts, Event::PostsFound(posts)) => {
            if posts@.len() == 0 {
                next is Done && is_reply(action, NOT_FOUND_REPLY@)
            } else {
                next is Done && (action matches Action::Send(v) && v@.map_values(
                    |o: Outgoing| o@,
                ) == batches(posts@, prefix, Seq::empty()))
            }
        },
        (Session::AwaitingPosts, Event::StoreFailed) => next is Done && is_reply(
            action,
            STORE_ERROR_REPLY@,
        ),
        _ => next is Done && action is Ignore,
    }
}

fn numbers_step(numbers: Vec<i32>) -> (r: (Session, Action))
    ensures
        after_numbers(numbers@, r.0, r.1),
{
    if numbers.len() == 0 {
        (Session::Done, Action::Reply(String::from_str(NO_NUMBERS_REPLY)))
    } else {
        (Session::AwaitingPosts, Action::FetchPosts(numbers))
    }
}

/// Takes a request one step on: from where it stands and what just
/// happened to where it goes and what to do; see `step_spec`.
pub fn step(session: Session, event: Event, image_url_prefix: &str) -> (r: (Session, Action))
    ensures
        step_spec(session, event, image_url_prefix@, r.0, r.1),
{
    match (session, event) {
        (Session::Idle, Event::Mentioned(text)) => {
            let specs = parse_range_specifications(text.as_str());
            if specs.len() == 0 {
                (Session::Done, Action::Reply(String::from_str(USAGE_REPLY)))
            } else if needs_upper_bound(&specs) {
                (Session::AwaitingMax(specs), Action::FetchMax)
            } else {
                numbers_step(calculate_post_numbers(specs, 0))
            }
        },
        (Session::AwaitingMax(specs), Event::MaxFound(max)) => {
            numbers_step(calculate_post_numbers(specs, max))
        },
        (Session::AwaitingMax(_), Event::StoreFailed) => {
            (Session::Done, Action::Reply(String::from_str(STORE_ERROR_REPLY)))
        },
        (Session::AwaitingPosts, Event::PostsFound(posts)) => {
            if posts.len() == 0 {
                (Session::Done, Action::Reply(String::from_str(NOT_FOUND_REPLY)))
            } else {
                (Session::Done, Action::Send(plan_replies(&posts, image_url_prefix)))
            }
        },
        (Session::AwaitingPosts, Event::StoreFailed) => {
            (Session::Done, Action::Reply(String::from_str(STORE_ERROR_REPLY)))
        },
        _ => (Session::Done, Action::Ignore),
    }
}

} // verus!
