use bbs_fetch_post::session::{NOT_FOUND_REPLY, NO_NUMBERS_REPLY, STORE_ERROR_REPLY, USAGE_REPLY};
use bbs_fetch_post::{
    clean_content, plan_replies, step, Action, Event, Outgoing, RangeSpec, Res, Session,
};

fn post(no: i32, main_text: &str, oekaki_id: Option<i32>) -> Res {
    Res {
        no,
        name_and_trip: String::new(),
        datetime: chrono::NaiveDateTime::default(),
        datetime_text: String::new(),
        id: String::new(),
        main_text: main_text.to_string(),
        main_text_html: String::new(),
        oekaki_id,
    }
}

#[test]
fn render_shows_header_and_body() {
    let r = Res {
        no: 12,
        name_and_trip: "名無し".to_string(),
        datetime: chrono::NaiveDateTime::default(),
        datetime_text: "2024/01/01 00:00".to_string(),
        id: "abc".to_string(),
        main_text: "hello".to_string(),
        main_text_html: "<p>hello</p>".to_string(),
        oekaki_id: None,
    };
    assert_eq!(r.render(), "### __12 名無し 2024/01/01 00:00 ID: abc__\nhello\n");
}

#[test]
fn render_writes_negative_and_large_numbers() {
    assert_eq!(post(-5, "x", None).render(), "### __-5   ID: __\nx\n");
    assert_eq!(post(i32::MIN, "", None).render(), "### __-2147483648   ID: __\n\n");
    assert_eq!(post(1234567890, "", None).render(), "### __1234567890   ID: __\n\n");
    assert_eq!(post(0, "", None).render(), "### __0   ID: __\n\n");
}

#[test]
fn short_posts_share_one_message() {
    let out = plan_replies(&vec![post(1, "a", None), post(2, "b", None)], "https://img/");
    assert_eq!(
        out,
        vec![Outgoing::Text("### __1   ID: __\na\n### __2   ID: __\nb\n".to_string())]
    );
}

#[test]
fn drawing_follows_its_post() {
    let out = plan_replies(
        &vec![post(1, "a", Some(42)), post(2, "b", None)],
        "https://img/",
    );
    assert_eq!(
        out,
        vec![
            Outgoing::Text("### __1   ID: __\na\n".to_string()),
            Outgoing::Image("https://img/42.png".to_string()),
            Outgoing::Text("### __2   ID: __\nb\n".to_string()),
        ]
    );
}

#[test]
fn texts_up_to_the_limit_are_joined() {
    // Each post renders to 18 bytes around its body: 900 bytes each, 1800 together.
    let body = "x".repeat(882);
    let out = plan_replies(&vec![post(1, &body, None), post(2, &body, None)], "");
    assert_eq!(out.len(), 1);
}

#[test]
fn texts_past_the_limit_are_split() {
    let body = "x".repeat(883);
    let out = plan_replies(&vec![post(1, &body, None), post(2, &body, None)], "");
    assert_eq!(out.len(), 2);
    assert_eq!(out[0], Outgoing::Text(post(1, &body, None).render()));
}

#[test]
fn limit_counts_bytes_not_characters() {
    // 300 three-byte characters: 900 bytes of body, 918 per post.
    let body = "あ".repeat(300);
    let out = plan_replies(&vec![post(1, &body, None), post(2, &body, None)], "");
    assert_eq!(out.len(), 2);
}

#[test]
fn no_posts_no_messages() {
    assert_eq!(plan_replies(&vec![], "p"), vec![]);
}

#[test]
fn mentions_are_removed() {
    assert_eq!(clean_content("<@123> 1-3 <@!456>"), " 1-3 ");
    assert_eq!(clean_content("<@abc> 5"), "<@abc> 5");
}

#[test]
fn blank_message_gets_usage() {
    match step(Session::Idle, Event::Mentioned(" , ".to_string()), "") {
        (Session::Done, Action::Reply(m)) => assert_eq!(m, USAGE_REPLY),
        other => panic!("unexpected {other:?}"),
    }
}

#[test]
fn absolute_expression_fetches_directly() {
    match step(Session::Idle, Event::Mentioned("1-3,^2".to_string()), "") {
        (Session::AwaitingPosts, Action::FetchPosts(v)) => assert_eq!(v, vec![1, 3]),
        other => panic!("unexpected {other:?}"),
    }
}

#[test]
fn absolute_expression_selecting_nothing() {
    match step(Session::Idle, Event::Mentioned("3-1".to_string()), "") {
        (Session::Done, Action::Reply(m)) => assert_eq!(m, NO_NUMBERS_REPLY),
        other => panic!("unexpected {other:?}"),
    }
}

#[test]
fn open_expression_asks_for_the_maximum() {
    let (session, action) = step(Session::Idle, Event::Mentioned("5-".to_string()), "");
    assert!(matches!(action, Action::FetchMax));
    match &session {
        Session::AwaitingMax(specs) => assert_eq!(specs, &vec![RangeSpec::IncludeFrom(5)]),
        other => panic!("unexpected {other:?}"),
    }
    match step(session, Event::MaxFound(7), "") {
        (Session::AwaitingPosts, Action::FetchPosts(v)) => assert_eq!(v, vec![5, 6, 7]),
        other => panic!("unexpected {other:?}"),
    }
}

#[test]
fn maximum_below_open_range() {
    let session = Session::AwaitingMax(vec![RangeSpec::IncludeFrom(5)]);
    match step(session, Event::MaxFound(3), "") {
        (Session::Done, Action::Reply(m)) => assert_eq!(m, NO_NUMBERS_REPLY),
        other => panic!("unexpected {other:?}"),
    }
}

#[test]
fn store_failure_is_reported() {
    let session = Session::AwaitingMax(vec![RangeSpec::IncludeFrom(5)]);
    match step(session, Event::StoreFailed, "") {
        (Session::Done, Action::Reply(m)) => assert_eq!(m, STORE_ERROR_REPLY),
        other => panic!("unexpected {other:?}"),
    }
    match step(Session::AwaitingPosts, Event::StoreFailed, "") {
        (Session::Done, Action::Reply(m)) => assert_eq!(m, STORE_ERROR_REPLY),
        other => panic!("unexpected {other:?}"),
    }
}

#[test]
fn missing_posts_are_reported() {
    match step(Session::AwaitingPosts, Event::PostsFound(vec![]), "") {
        (Session::Done, Action::Reply(m)) => assert_eq!(m, NOT_FOUND_REPLY),
        other => panic!("unexpected {other:?}"),
    }
}

#[test]
fn found_posts_are_sent() {
    match step(Session::AwaitingPosts, Event::PostsFound(vec![post(9, "z", Some(3))]), "u/") {
        (Session::Done, Action::Send(out)) => assert_eq!(
            out,
            vec![
                Outgoing::Text("### __9   ID: __\nz\n".to_string()),
                Outgoing::Image("u/3.png".to_string()),
            ]
        ),
        other => panic!("unexpected {other:?}"),
    }
}

#[test]
fn out_of_order_event_is_ignored() {
    assert!(matches!(step(Session::Idle, Event::MaxFound(5), ""), (Session::Done, Action::Ignore)));
    assert!(matches!(
        step(Session::Done, Event::Mentioned("1".to_string()), ""),
        (Session::Done, Action::Ignore)
    ));
}
