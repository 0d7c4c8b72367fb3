use lad_core::decide::{extract_selector_text, extract_type_value};

#[test]
fn selector_from_attribute_anywhere() {
    assert_eq!(extract_selector_text("type hello into [name=q] now").as_deref(), Some("[name=q]"));
}

#[test]
fn selector_from_kind_label_word() {
    assert_eq!(extract_selector_text("please click button:Login").as_deref(), Some("button:Login"));
    assert_eq!(extract_selector_text("click BTN:Go").as_deref(), Some("BTN:Go"));
}

#[test]
fn selector_skips_urls_and_unknown_kinds() {
    assert_eq!(
        extract_selector_text("go to https://example.com").as_deref(),
        Some("https://example.com")
    );
    assert_eq!(extract_selector_text("note:this and open the menu").as_deref(), Some("the menu"));
}

#[test]
fn selector_from_id_word() {
    assert_eq!(extract_selector_text("click #3").as_deref(), Some("#3"));
    assert_eq!(extract_selector_text("press # now").as_deref(), Some("# now"));
}

#[test]
fn selector_from_verb_target_lowercased() {
    assert_eq!(extract_selector_text("Click the Login Button").as_deref(), Some("the login button"));
    assert_eq!(extract_selector_text("type hello into the Search box").as_deref(), Some("the search box"));
    assert_eq!(extract_selector_text("wait a bit"), None);
    assert_eq!(extract_selector_text("click   "), None);
}

#[test]
fn type_value_quoted_and_unquoted() {
    assert_eq!(extract_type_value(r#"type "Hello World" into [name=q]"#), "hello world");
    assert_eq!(extract_type_value("type hello into .search"), "hello");
    assert_eq!(extract_type_value("enter foo into bar"), "foo");
    assert_eq!(extract_type_value("type 'x y' into z"), "x y");
    assert_eq!(extract_type_value("click the button"), "");
    assert_eq!(extract_type_value("type  into z"), "");
}

#[test]
fn selector_action_types_the_goal_value_into_the_first_fresh_match() {
    let matches = vec![(3u32, "id match".to_string()), (5u32, "label match".to_string())];
    let a = lad_core::decide::selector_action(
        "type \"hello\" into [name=email]",
        "[name=email]",
        &matches,
        &[3],
    );
    match a {
        Some(lad_core::pilot::Action::Type { element, value, reasoning }) => {
            assert_eq!(element, 5);
            assert_eq!(value, "hello");
            assert_eq!(reasoning, "selector: label match ([name=email])");
        }
        other => panic!("unexpected {other:?}"),
    }
}

#[test]
fn selector_action_clicks_and_gives_up_when_all_acted_on() {
    let matches = vec![(7u32, "kind+label".to_string())];
    match lad_core::decide::selector_action("click button:Login", "button:Login", &matches, &[]) {
        Some(lad_core::pilot::Action::Click { element, reasoning }) => {
            assert_eq!(element, 7);
            assert_eq!(reasoning, "selector: kind+label (button:Login)");
        }
        other => panic!("unexpected {other:?}"),
    }
    assert!(lad_core::decide::selector_action("click button:Login", "button:Login", &matches, &[7]).is_none());
    assert!(lad_core::decide::selector_action("click button:Login", "button:Login", &[], &[]).is_none());
}

#[test]
fn selector_action_falls_back_to_click_when_no_value() {
    let matches = vec![(2u32, "r".to_string())];
    match lad_core::decide::selector_action("fill the form", "x", &matches, &[]) {
        Some(lad_core::pilot::Action::Click { element, .. }) => assert_eq!(element, 2),
        other => panic!("unexpected {other:?}"),
    }
}
