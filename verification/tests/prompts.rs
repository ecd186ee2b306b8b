use skim_integration::display::{
    display_header, display_line, fetch_prompts_from_servers, format_prompts_for_display, get_available_prompts,
    PROMPT_SELECTOR_DESC_WIDTH, PROMPT_SELECTOR_PROMPT_WIDTH, PROMPT_SELECTOR_SERVER_WIDTH, TRUNCATED_SUFFIX,
};
use skim_integration::errors::SelectorError;
use skim_integration::grouping::group_and_sort_prompts;
use skim_integration::prompts::{Prompt, PromptArgument, PromptBundle, PromptQueryResult};
use skim_integration::truncate::{truncate_safe, truncate_safe_in_place};

fn bundle(server: &str, description: Option<&str>) -> PromptBundle {
    PromptBundle {
        server_name: server.to_string(),
        prompt_get: Prompt {
            name: "p".to_string(),
            description: description.map(|d| d.to_string()),
            arguments: None,
        },
    }
}

fn row(a: &str, b: &str, c: &str, d: &str) -> (String, String, String, String) {
    (a.to_string(), b.to_string(), c.to_string(), d.to_string())
}

#[test]
fn test_format_prompt_arguments() {
    let bundle_no_args = PromptBundle {
        server_name: "test".to_string(),
        prompt_get: Prompt {
            name: "test".to_string(),
            description: Some("test".to_string()),
            arguments: None,
        },
    };
    assert_eq!(bundle_no_args.format_arguments_for_display(), "");

    let bundle_empty_args = PromptBundle {
        server_name: "test".to_string(),
        prompt_get: Prompt {
            name: "test".to_string(),
            description: Some("test".to_string()),
            arguments: Some(vec![]),
        },
    };
    assert_eq!(bundle_empty_args.format_arguments_for_display(), "");

    let bundle_mixed_args = PromptBundle {
        server_name: "test".to_string(),
        prompt_get: Prompt {
            name: "test".to_string(),
            description: Some("test".to_string()),
            arguments: Some(vec![
                PromptArgument {
                    name: "required_arg".to_string(),
                    description: Some("A required argument".to_string()),
                    required: Some(true),
                },
                PromptArgument {
                    name: "optional_arg".to_string(),
                    description: Some("An optional argument".to_string()),
                    required: Some(false),
                },
                PromptArgument {
                    name: "default_arg".to_string(),
                    description: Some("Argument with default required".to_string()),
                    required: None,
                },
            ]),
        },
    };
    assert_eq!(
        bundle_mixed_args.format_arguments_for_display(),
        "required_arg*, optional_arg, default_arg"
    );
}

#[test]
fn test_server_name_truncation() {
    let long_server_name = "very-long-server-name-that-exceeds-column-width";
    assert!(long_server_name.len() > PROMPT_SELECTOR_SERVER_WIDTH);

    let mut truncated = long_server_name.to_string();
    truncate_safe_in_place(&mut truncated, PROMPT_SELECTOR_SERVER_WIDTH, TRUNCATED_SUFFIX);

    assert_eq!(truncated, "very-...");
    assert_eq!(truncated.len(), PROMPT_SELECTOR_SERVER_WIDTH);
}

#[test]
fn test_column_constants() {
    assert_eq!(PROMPT_SELECTOR_SERVER_WIDTH, 8);
    assert_eq!(PROMPT_SELECTOR_PROMPT_WIDTH, 18);
    assert_eq!(PROMPT_SELECTOR_DESC_WIDTH, 25);

    let long_desc = "a".repeat(PROMPT_SELECTOR_DESC_WIDTH + 10);
    let mut truncated_desc = long_desc.clone();
    truncate_safe_in_place(&mut truncated_desc, PROMPT_SELECTOR_DESC_WIDTH, TRUNCATED_SUFFIX);
    assert_eq!(truncated_desc.len(), PROMPT_SELECTOR_DESC_WIDTH);
}

#[test]
fn truncation_leaves_fitting_texts_alone_and_is_idempotent() {
    let mut text = "exactly8".to_string();
    truncate_safe_in_place(&mut text, 8, "...");
    assert_eq!(text, "exactly8");

    let mut text = "nine char".to_string();
    truncate_safe_in_place(&mut text, 8, "...");
    assert_eq!(text, "nine ...");
    truncate_safe_in_place(&mut text, 8, "...");
    assert_eq!(text, "nine ...");
}

#[test]
fn truncation_does_not_split_characters() {
    assert_eq!(truncate_safe("äöü", 3), "ä");
    assert_eq!(truncate_safe("äöü", 4), "äö");
    assert_eq!(truncate_safe("a€𝄞z", 4), "a€");
    assert_eq!(truncate_safe("a€𝄞z", 7), "a€");
    assert_eq!(truncate_safe("a€𝄞z", 8), "a€𝄞");
    assert_eq!(truncate_safe("abc", 0), "");

    let mut text = "ööööö".to_string();
    truncate_safe_in_place(&mut text, 8, "...");
    assert_eq!(text, "öö...");
}

#[test]
fn a_suffix_that_is_too_long_is_cut_down_itself() {
    let mut text = "abcdef".to_string();
    truncate_safe_in_place(&mut text, 2, "...");
    assert_eq!(text, "..");
}

#[test]
fn prompts_are_grouped_by_server_and_sorted() {
    let groups = group_and_sort_prompts(vec![
        ("zeta".to_string(), vec![bundle("b", Some("1")), bundle("a", Some("2"))]),
        ("alpha".to_string(), vec![bundle("b", Some("3"))]),
        ("Alpha".to_string(), vec![bundle("b", Some("4"))]),
    ]);
    let shape: Vec<(String, Vec<(String, String)>)> = groups
        .iter()
        .map(|(server, prompts)| {
            (
                server.clone(),
                prompts
                    .iter()
                    .map(|(name, b)| (name.clone(), b.prompt_get.description.clone().unwrap()))
                    .collect(),
            )
        })
        .collect();
    let pair = |a: &str, b: &str| (a.to_string(), b.to_string());
    assert_eq!(
        shape,
        vec![
            ("a".to_string(), vec![pair("zeta", "2")]),
            (
                "b".to_string(),
                vec![pair("Alpha", "4"), pair("alpha", "3"), pair("zeta", "1")]
            ),
        ]
    );
}

#[test]
fn bundles_of_one_name_and_server_keep_their_order() {
    let groups = group_and_sort_prompts(vec![
        ("b".to_string(), vec![bundle("s", Some("1")), bundle("s", Some("2")), bundle("s", Some("3"))]),
        ("a".to_string(), vec![bundle("s", Some("0"))]),
    ]);
    let rows = format_prompts_for_display(groups);
    let descriptions: Vec<String> = rows.iter().map(|r| r.2.clone()).collect();
    assert_eq!(descriptions, vec!["0", "1", "2", "3"]);
}

#[test]
fn the_order_of_the_list_does_not_matter() {
    let list = vec![
        ("c".to_string(), vec![bundle("x", Some("1")), bundle("y", Some("2"))]),
        ("a".to_string(), vec![bundle("y", Some("3"))]),
        ("b".to_string(), vec![bundle("x", None), bundle("x", Some("4"))]),
    ];
    let mut other = list.clone();
    other.reverse();
    let rows = get_available_prompts(Ok(PromptQueryResult::List(list))).unwrap();
    assert_eq!(rows, get_available_prompts(Ok(PromptQueryResult::List(other))).unwrap());
    assert_eq!(
        rows,
        vec![
            row("@b", "x", "No description", ""),
            row("@b", "x", "4", ""),
            row("@c", "x", "1", ""),
            row("@a", "y", "3", ""),
            row("@c", "y", "2", ""),
        ]
    );
}

#[test]
fn texts_are_ordered_by_their_bytes() {
    let groups = group_and_sort_prompts(vec![
        ("p".to_string(), vec![bundle("é", None), bundle("z", None), bundle("", None), bundle("zz", None)]),
    ]);
    let servers: Vec<String> = groups.iter().map(|g| g.0.clone()).collect();
    let mut expected = vec!["é", "z", "", "zz"];
    expected.sort();
    assert_eq!(servers, expected);
}

#[test]
fn an_empty_list_has_no_rows() {
    assert_eq!(get_available_prompts(Ok(PromptQueryResult::List(vec![]))), Ok(vec![]));
    let no_bundles = vec![("lonely".to_string(), vec![])];
    assert_eq!(get_available_prompts(Ok(PromptQueryResult::List(no_bundles))), Ok(vec![]));
}

#[test]
fn other_answers_are_errors() {
    assert_eq!(
        get_available_prompts(Ok(PromptQueryResult::Search(vec!["x".to_string()]))),
        Err(SelectorError::WrongResponse)
    );
    assert_eq!(
        fetch_prompts_from_servers(Err(SelectorError::Polling("closed".to_string()))),
        Err(SelectorError::Polling("closed".to_string()))
    );
}

#[test]
fn lines_are_set_in_columns() {
    assert_eq!(
        display_line(&row("@review", "github", "Reviews a pull request", "number*, style")),
        "@review            github   Reviews a pull request    number*, style"
    );
    assert_eq!(
        display_line(&row("@a", "very-long-server-name", "A description that goes on and on", "")),
        "@a                 very-... A description that goe... "
    );
    assert_eq!(
        display_line(&row("@a-prompt-with-a-long-name", "s", "d", "x")),
        "@a-prompt-with-a-long-name s        d                         x"
    );
}

#[test]
fn lines_match_the_format_macro() {
    for (p, s, d, a) in [("@x", "srv", "desc", "a*"), ("@ü", "ñ", "日本", ""), ("", "", "", "")] {
        assert_eq!(
            display_line(&row(p, s, d, a)),
            format!("{:<18} {:<8} {:<25} {}", p, s, d, a)
        );
    }
}

#[test]
fn header_columns_stand_above_row_columns() {
    let header = display_header();
    assert_eq!(
        header,
        "Prompt             Server   Description               Arguments (* = required)"
    );
    let line = display_line(&row("@p", "server", "what it does", "args"));
    assert_eq!(header.find("Server"), line.find("server"));
    assert_eq!(header.find("Description"), line.find("what"));
    assert_eq!(header.find("Arguments"), line.find("args"));
}
