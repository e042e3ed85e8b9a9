use ccline::input::{ContextWindow, CurrentUsage, Input, Model};
use ccline::render::{is_known_module, parse_format, render, try_render, unknown_modules, RenderContext, Token};
use jiff::tz::TimeZone;

fn ctx() -> RenderContext {
    RenderContext {
        now: 0,
        git_branch: None,
        time_zone: TimeZone::UTC,
    }
}

fn ctx_on_branch(branch: &str) -> RenderContext {
    RenderContext {
        now: 0,
        git_branch: Some(branch.to_string()),
        time_zone: TimeZone::UTC,
    }
}

#[test]
fn parses_literal_only() {
    let tokens = parse_format("hello world");
    assert_eq!(tokens, vec![Token::Literal("hello world".into())]);
}

#[test]
fn parses_single_module() {
    let tokens = parse_format("$model");
    assert_eq!(tokens, vec![Token::Module("model".into())]);
}

#[test]
fn parses_mixed_literal_and_module() {
    let tokens = parse_format("🤖 $model | 💰");
    assert_eq!(
        tokens,
        vec![
            Token::Literal("🤖 ".into()),
            Token::Module("model".into()),
            Token::Literal(" | 💰".into()),
        ]
    );
}

#[test]
fn dollar_before_digit_stays_literal() {
    let tokens = parse_format("cost $5");
    assert_eq!(tokens, vec![Token::Literal("cost $5".into())]);
}

#[test]
fn parses_empty_group() {
    assert_eq!(parse_format("()"), vec![Token::Group(vec![])]);
}

#[test]
fn parses_group_with_literal_only() {
    assert_eq!(
        parse_format("(abc)"),
        vec![Token::Group(vec![Token::Literal("abc".into())])]
    );
}

#[test]
fn parses_group_with_module() {
    assert_eq!(
        parse_format("( | $model)"),
        vec![Token::Group(vec![
            Token::Literal(" | ".into()),
            Token::Module("model".into()),
        ])]
    );
}

#[test]
fn parses_nested_group() {
    assert_eq!(
        parse_format("($a ($b))"),
        vec![Token::Group(vec![
            Token::Module("a".into()),
            Token::Group(vec![
                Token::Literal(" ".into()),
                Token::Module("b".into()),
            ]),
        ])]
    );
}

#[test]
fn parses_group_in_context() {
    assert_eq!(
        parse_format("x( | $y)z"),
        vec![
            Token::Literal("x".into()),
            Token::Group(vec![
                Token::Literal(" | ".into()),
                Token::Module("y".into()),
            ]),
            Token::Literal("z".into()),
        ]
    );
}

#[test]
fn unclosed_group_extends_to_eof() {
    assert_eq!(
        parse_format("($model"),
        vec![Token::Group(vec![Token::Module("model".into())])]
    );
}

#[test]
fn stray_close_paren_is_literal() {
    assert_eq!(
        parse_format("foo)bar"),
        vec![Token::Literal("foo)bar".into())]
    );
}

#[test]
fn git_branch_sep_alias_expands_to_group() {
    assert_eq!(
        parse_format("$git_branch_sep"),
        vec![Token::Group(vec![
            Token::Literal(" | 🌿 ".into()),
            Token::Module("git_branch".into()),
        ])]
    );
}

#[test]
fn renders_end_to_end() {
    let input = Input {
        model: Some(Model {
            display_name: Some("Opus 4.6".into()),
        }),
        ..Default::default()
    };
    let out = render("🤖 $model", &input, &ctx());
    assert_eq!(out, "🤖 Opus 4.6");
}

#[test]
fn unknown_module_renders_empty() {
    let input = Input::default();
    let out = render("[$nope]", &input, &ctx());
    assert_eq!(out, "[]");
}

#[test]
fn literal_newline_passes_through_for_multiline_output() {
    let input = Input {
        model: Some(Model {
            display_name: Some("Opus 4.6".into()),
        }),
        ..Default::default()
    };
    let out = render("$model\nline 2", &input, &ctx());
    assert_eq!(out, "Opus 4.6\nline 2");
}

fn input_with_model() -> Input {
    Input {
        model: Some(Model {
            display_name: Some("Opus 4.6".into()),
        }),
        ..Default::default()
    }
}

#[test]
fn group_renders_when_module_present() {
    let out = render("x( | $model)y", &input_with_model(), &ctx());
    assert_eq!(out, "x | Opus 4.6y");
}

#[test]
fn group_suppresses_when_module_empty() {
    let out = render("x( | $version)y", &Input::default(), &ctx());
    assert_eq!(out, "xy");
}

#[test]
fn group_with_multiple_modules_suppresses_on_any_empty() {
    let out = render("($model $version)", &input_with_model(), &ctx());
    assert_eq!(out, "");
}

#[test]
fn nested_group_emptiness_does_not_bubble() {
    let out = render("($model( | $version))", &input_with_model(), &ctx());
    assert_eq!(out, "Opus 4.6");
}

#[test]
fn space_before_group_is_absorbed_into_group() {
    assert_eq!(
        parse_format("a ($b)"),
        vec![
            Token::Literal("a".into()),
            Token::Group(vec![
                Token::Literal(" ".into()),
                Token::Module("b".into()),
            ]),
        ]
    );
}

#[test]
fn absorbed_space_replaces_leading_space_inside_group() {
    assert_eq!(parse_format("a ( | $b)"), parse_format("a( | $b)"));
}

#[test]
fn absorbed_group_with_only_whitespace_inner_literal_drops_it() {
    assert_eq!(
        parse_format("a (  $b)"),
        vec![
            Token::Literal("a".into()),
            Token::Group(vec![
                Token::Literal(" ".into()),
                Token::Module("b".into()),
            ]),
        ]
    );
}

#[test]
fn absorbed_space_suppressed_when_group_empty() {
    let out = render("x ( | $version)y", &Input::default(), &ctx());
    assert_eq!(out, "xy");
}

#[test]
fn new_and_old_group_syntax_render_identically() {
    let input = input_with_model();
    assert_eq!(
        render("$model ( | $model)", &input, &ctx()),
        render("$model( | $model)", &input, &ctx()),
    );
}

#[test]
fn trailing_whitespace_inside_group_is_stripped() {
    assert_eq!(
        parse_format("(abc )"),
        vec![Token::Group(vec![Token::Literal("abc".into())])]
    );
}

#[test]
fn symmetric_group_padding_parses_like_tight_form() {
    let symmetric = parse_format("$ctx ( | $x )");
    let tight = parse_format("$ctx (| $x)");
    let legacy = parse_format("$ctx( | $x)");
    assert_eq!(symmetric, tight);
    assert_eq!(symmetric, legacy);
}

#[test]
fn symmetric_group_padding_renders_cleanly_when_present() {
    let out = render("x ( | $model )y", &input_with_model(), &ctx());
    assert_eq!(out, "x | Opus 4.6y");
}

#[test]
fn symmetric_group_padding_suppresses_when_empty() {
    let out = render("x ( | $version )y", &Input::default(), &ctx());
    assert_eq!(out, "xy");
}

#[test]
fn git_branch_sep_alias_renders_via_group() {
    let out = render("$git_branch_sep", &Input::default(), &ctx_on_branch("master"));
    assert!(out.starts_with(" | 🌿 "), "got: {out:?}");
}

#[test]
fn git_branch_sep_alias_suppresses_outside_repo() {
    let out = render("$git_branch_sep", &Input::default(), &ctx());
    assert_eq!(out, "", "alias must suppress outside a git repo");
}

#[test]
fn whitespace_only_group_keeps_absorbed_space() {
    assert_eq!(
        parse_format("a (  )"),
        vec![
            Token::Literal("a".into()),
            Token::Group(vec![Token::Literal(" ".into())]),
        ]
    );
    assert_eq!(parse_format("a( )"), vec![Token::Literal("a".into()), Token::Group(vec![])]);
}

#[test]
fn dollar_runs_and_identifier_ends() {
    assert_eq!(
        parse_format("$$a1_b-c"),
        vec![
            Token::Literal("$".into()),
            Token::Module("a1_b".into()),
            Token::Literal("-c".into()),
        ]
    );
    assert_eq!(parse_format("x$"), vec![Token::Literal("x$".into())]);
}

fn overflowing_cache() -> Input {
    Input {
        context_window: Some(ContextWindow {
            current_usage: Some(CurrentUsage {
                input_tokens: Some(u64::MAX),
                cache_read_input_tokens: Some(1),
                cache_creation_input_tokens: None,
            }),
            ..Default::default()
        }),
        ..Default::default()
    }
}

#[test]
fn try_render_refuses_overflow_only_where_computed() {
    let input = overflowing_cache();
    assert_eq!(try_render("$cache", &input, &ctx()), None);
    assert_eq!(try_render("[$nope]", &input, &ctx()), Some("[]".to_string()));
    assert_eq!(
        try_render("($version $cache)", &input, &ctx()),
        Some(String::new())
    );
}

#[test]
fn renders_all_modules_for_an_empty_payload() {
    let out = render(
        "$model|$cost|$duration|$session|$session_reset|$weekly|$weekly_reset|$context|$context_bar|$tokens_in|$tokens_out|$cache|$version|$project|$git_branch",
        &Input::default(),
        &ctx(),
    );
    assert_eq!(
        out,
        "|$0.00|0s|N/A|N/A|N/A|N/A|0%|░░░░░░░░░░ 0% (0k/0k)|0|0|0% (0)|||"
    );
}

#[test]
fn plain_text_renders_verbatim() {
    let fmt = "cost $5 ) and $ alone, 100% done\n";
    assert_eq!(render(fmt, &Input::default(), &ctx()), fmt);
}

fn has_empty_literal(tokens: &[Token]) -> bool {
    tokens.iter().any(|t| match t {
        Token::Literal(s) => s.is_empty(),
        Token::Module(_) => false,
        Token::Group(ch) => has_empty_literal(ch),
    })
}

#[test]
fn parse_never_yields_empty_literals() {
    for fmt in ["", "()", "( )", "a (  )", "(( ))", " ( $a ) ", "x(\t)y", "$a( )$b"] {
        assert!(!has_empty_literal(&parse_format(fmt)), "{fmt:?}");
    }
}

#[test]
fn space_before_padded_group_moves_inside() {
    assert_eq!(
        parse_format("a  ( | x )"),
        vec![
            Token::Literal("a".into()),
            Token::Group(vec![Token::Literal("  | x".into())]),
        ]
    );
}

#[test]
fn unknown_modules_lists_unknown_names_in_order() {
    let tokens = parse_format("$model $foo ($bar $cost ($baz)) $git_branch_sep $weekly");
    assert_eq!(unknown_modules(&tokens), vec!["foo".to_string(), "bar".to_string(), "baz".to_string()]);
    assert!(unknown_modules(&parse_format("$model | $cost")).is_empty());
    assert!(is_known_module("context_bar"));
    assert!(!is_known_module("git_branch_sep"));
}

#[test]
fn parse_reads_back_text_with_module_references() {
    let tokens = parse_format("a $model) $ 5$$cost$");
    assert_eq!(
        tokens,
        vec![
            Token::Literal("a ".to_string()),
            Token::Module("model".to_string()),
            Token::Literal(") $ 5$".to_string()),
            Token::Module("cost".to_string()),
            Token::Literal("$".to_string()),
        ]
    );
    assert!(parse_format("").is_empty());
}

#[test]
fn parse_never_puts_literals_side_by_side() {
    let tokens = parse_format("x (  $model  ) y ($git_branch_sep)");
    for pair in tokens.windows(2) {
        assert!(!matches!((&pair[0], &pair[1]), (Token::Literal(_), Token::Literal(_))));
    }
}

#[test]
fn unclosed_group_takes_the_rest_as_its_content() {
    assert_eq!(
        parse_format("(a $model (b"),
        vec![Token::Group(vec![
            Token::Literal("a ".to_string()),
            Token::Module("model".to_string()),
            Token::Group(vec![Token::Literal(" b".to_string())]),
        ])]
    );
}

#[test]
fn closed_group_children_are_its_content_parsed() {
    assert_eq!(
        parse_format("( $model x )"),
        vec![Token::Group(vec![
            Token::Literal(" ".to_string()),
            Token::Module("model".to_string()),
            Token::Literal(" x".to_string()),
        ])]
    );
}
