//! Markdown as it is shown.

use me::agent_markdown_renderer::display_width;
use me::agent_markdown_renderer::highlight::normalized_language_token;
use me::agent_markdown_renderer::highlight::Syntaxes;
use me::agent_markdown_renderer::render;
use me::agent_markdown_renderer::render_with;
use me::agent_markdown_renderer::ColorRole;
use me::agent_markdown_renderer::StyledLine;
use me::agent_markdown_renderer::COMPONENT_NAME;

fn plain(markdown: &str, width: usize) -> Vec<String> {
    render(markdown, width)
        .into_iter()
        .map(|line| line.plain_text())
        .collect()
}

fn assert_widths(markdown: &str, width: usize) {
    for line in render(markdown, width) {
        assert!(
            line.width() <= width,
            "width={} > {width}: {:?}",
            line.width(),
            line.plain_text()
        );
    }
}

fn text_with_color(lines: &[StyledLine], color: ColorRole) -> String {
    lines
        .iter()
        .flat_map(|line| line.spans.iter())
        .filter(|span| span.style.color == color)
        .map(|span| span.text.as_str())
        .collect()
}

#[test]
fn component_has_the_requested_identity() {
    assert_eq!(COMPONENT_NAME, "agent-markdown-renderer");
}

#[test]
fn renders_inline_semantics_as_structured_styles_without_ansi() {
    let markdown: &str = &[
        "# Heading\n\n",
        "**bold** *italic* ~~deleted~~ `code` ",
        "[link](https://linked.example) https://bare.example/path?q=1.",
    ].concat();
    let lines = render(markdown, 120);
    let visible = lines
        .iter()
        .map(StyledLine::plain_text)
        .collect::<Vec<_>>()
        .join("\n");
    let spans = lines
        .iter()
        .flat_map(|line| line.spans.iter())
        .collect::<Vec<_>>();

    assert!(visible.contains("Heading"));
    assert!(visible.contains("bold italic deleted code"));
    assert!(
        ["**", "~~", "`", "# Heading"]
            .into_iter()
            .all(|marker| !visible.contains(marker))
    );
    assert!(
        spans
            .iter()
            .any(|span| span.text == "Heading" && span.style.bold && span.style.underlined)
    );
    assert!(
        spans
            .iter()
            .any(|span| span.text == "bold" && span.style.bold)
    );
    assert!(
        spans
            .iter()
            .any(|span| span.text == "italic" && span.style.italic)
    );
    assert!(
        spans
            .iter()
            .any(|span| span.text == "deleted" && span.style.crossed_out)
    );
    assert!(
        spans
            .iter()
            .any(|span| span.text == "code" && span.style.color == ColorRole::Code)
    );
    assert!(spans.iter().any(|span| span.text == "link"
        && span.style.color == ColorRole::Link
        && span.style.underlined));
    assert!(
        spans
            .iter()
            .any(|span| span.text == "https://bare.example/path?q=1"
                && span.style.color == ColorRole::Link
                && span.style.underlined)
    );
    assert!(
        spans
            .iter()
            .all(|span| !span.text.contains('\u{1b}') && !span.text.contains('\0'))
    );
}

#[test]
fn renders_nested_styles_and_reflows_them_across_lines() {
    let lines = render("**before [linked words](https://example.com) after**", 12);
    assert!(lines.len() >= 3);
    assert!(lines.iter().all(|line| line.width() <= 12));
    let linked = lines
        .iter()
        .flat_map(|line| line.spans.iter())
        .filter(|span| span.style.color == ColorRole::Link)
        .collect::<Vec<_>>();
    assert!(!linked.is_empty());
    assert!(
        linked
            .iter()
            .all(|span| span.style.bold && span.style.underlined)
    );
}

#[test]
fn renders_cjk_adjacent_strong_without_exposing_compatibility_markers() {
    let markdown: &str = &[
        "一句话：**别生吃、别半生不熟，炖熟煮透就完全可以放心吃。**\n\n",
        "豆橛子是对**芸豆（豆角、四季豆类）**的俗称。\n\n",
        "含有**植物血凝素（PHA，一种凝集素）**和**皂苷**等天然毒素。\n\n",
        "这是**（非常重要）**的提醒。\n\n",
        "`代码**（保持原样）**文本` \\**（转义保持原样）**文本\n",
    ].concat();
    let lines = render(markdown, 200);
    let visible = lines
        .iter()
        .map(StyledLine::plain_text)
        .collect::<Vec<_>>()
        .join("\n");
    let bold = lines
        .iter()
        .flat_map(|line| &line.spans)
        .filter(|span| span.style.bold)
        .map(|span| span.text.as_str())
        .collect::<String>();

    assert!(bold.contains("别生吃、别半生不熟，炖熟煮透就完全可以放心吃。"));
    assert!(bold.contains("芸豆（豆角、四季豆类）"));
    assert!(bold.contains("植物血凝素（PHA，一种凝集素）"));
    assert!(bold.contains("皂苷"));
    assert!(bold.contains("（非常重要）"));
    assert!(visible.contains("代码**（保持原样）**文本"));
    assert!(visible.contains("**（转义保持原样）**文本"));
    assert!(!visible.contains('\u{000b}'));
}

#[test]
fn renders_lists_tasks_quotes_alerts_and_definition_lists() {
    let markdown: &str = &[
        "> [!WARNING]\n",
        "> quoted **text**\n\n",
        "3. first\n",
        "4. second\n",
        "   - [x] nested done\n",
        "   - [ ] nested pending\n\n",
        "Term\n",
        ": definition\n",
    ].concat();
    let lines = render(markdown, 48);
    let visible = lines
        .iter()
        .map(StyledLine::plain_text)
        .collect::<Vec<_>>()
        .join("\n");

    assert!(visible.contains("│ WARNING"));
    assert!(visible.contains("│ quoted text"));
    assert!(visible.contains("3. first"));
    assert!(visible.contains("4. second"));
    assert!(visible.contains("• ✓ nested done"));
    assert!(visible.contains("• ○ nested pending"));
    assert!(visible.contains("Term"));
    assert!(visible.contains("  · definition"));
    assert!(lines.iter().flat_map(|line| &line.spans).any(|span| {
        span.text == "✓ " && span.style.color == ColorRole::Success && span.style.bold
    }));
    assert!(lines.iter().flat_map(|line| &line.spans).any(|span| {
        span.text.contains('○') && span.style.color == ColorRole::Muted && !span.style.bold
    }));
    assert_widths(markdown, 48);
}

#[test]
fn renders_code_blocks_with_default_background_open_sides_and_language() {
    let markdown = "```rust linenos\nfn main() {\n\tprintln!(\"你好 👩🏽‍💻\");\n}\n```";
    let lines = render(markdown, 32);
    let visible = lines.iter().map(StyledLine::plain_text).collect::<Vec<_>>();

    assert!(
        visible
            .first()
            .is_some_and(|line| line.starts_with("╭─ rust") && line.ends_with('╮'))
    );
    assert!(
        visible
            .last()
            .is_some_and(|line| line == &format!("╰{}╯", "─".repeat(30)))
    );
    assert!(visible.iter().any(|line| line.contains("fn main()")));
    assert!(visible.iter().any(|line| line.contains("println!")));
    assert!(visible.iter().any(|line| line == "  fn main() {"));
    assert!(
        visible
            .iter()
            .any(|line| line.starts_with("      println!"))
    );
    assert!(
        visible[1..visible.len() - 1]
            .iter()
            .all(|line| !line.starts_with('│') && !line.ends_with('│'))
    );
    assert!(
        visible[1..visible.len() - 1]
            .iter()
            .all(|line| line.starts_with("  ") && display_width(line) <= 30)
    );
    assert!(text_with_color(&lines, ColorRole::SyntaxDeclaration).contains("fn"));
    assert!(text_with_color(&lines, ColorRole::SyntaxFunction).contains("main"));
    assert!(text_with_color(&lines, ColorRole::SyntaxString).contains("你好"));
    assert!(lines.iter().all(|line| line.width() <= 32));
}

#[test]
fn highlights_known_languages_and_safely_falls_back_for_unknown_fences() {
    let rust = render(
        "```rust\nfn answer(value: i32) -> i32 {\n    /* first\n       second */\n    let message = \"ok\";\n    value + 42\n}\n```",
        80,
    );
    assert!(text_with_color(&rust, ColorRole::SyntaxDeclaration).contains("fn"));
    assert!(text_with_color(&rust, ColorRole::SyntaxFunction).contains("answer"));
    assert!(text_with_color(&rust, ColorRole::SyntaxComment).contains("first"));
    assert!(text_with_color(&rust, ColorRole::SyntaxComment).contains("second"));
    assert!(text_with_color(&rust, ColorRole::SyntaxString).contains("\"ok\""));
    assert!(text_with_color(&rust, ColorRole::SyntaxNumber).contains("42"));

    let python = render(
        "```python\ndef greet(name):\n    # comment\n    return f\"hello {name}\"\n```",
        80,
    );
    assert!(text_with_color(&python, ColorRole::SyntaxFunction).contains("greet"));
    assert!(text_with_color(&python, ColorRole::SyntaxComment).contains("comment"));
    assert!(text_with_color(&python, ColorRole::SyntaxString).contains("hello"));
    assert!(text_with_color(&python, ColorRole::SyntaxKeyword).contains("return"));

    let shell = render(
        "```shell\nif test -n \"$HOME\"; then\n    echo \"ready\"\nfi\n```",
        80,
    );
    assert!(text_with_color(&shell, ColorRole::SyntaxKeyword).contains("if"));
    assert!(text_with_color(&shell, ColorRole::SyntaxString).contains("ready"));

    let unknown = render("```made-up-language\nlet value = \"unchanged\";\n```", 80);
    assert!(
        text_with_color(&unknown, ColorRole::Primary).contains("let value = \"unchanged\";")
    );
    assert!(
        unknown
            .iter()
            .any(|line| line.plain_text() == "  let value = \"unchanged\";")
    );

    let unlabeled = render("```\nplain code\n```", 80);
    assert!(text_with_color(&unlabeled, ColorRole::Primary).contains("plain code"));
    assert!(!text_with_color(&unlabeled, ColorRole::Code).contains("plain code"));
}

#[test]
fn recognizes_common_markdown_fence_language_names_and_aliases() {
    let syntaxes = Syntaxes::load();
    for language in [
        "rust",
        "rs",
        "python",
        "javascript",
        "typescript",
        "bash",
        "shell",
        "c",
        "c++",
        "cpp",
        "csharp",
        "java",
        "go",
        "json",
        "yaml",
        "html",
        "css",
        "sql",
        "toml",
        "dockerfile",
    ] {
        let token = normalized_language_token(language);
        assert!(
            syntaxes.knows(&token),
            "language fence `{language}` normalized to `{token}` was not recognized"
        );
    }
    assert_eq!(normalized_language_token("{.rust,ignore}"), "rs");
    assert!(
        !syntaxes.knows("made-up-language")
    );
}

#[test]
fn syntax_highlighting_preserves_text_styles_and_width_across_wrapping() {
    let markdown = "```rs\nfn extremely_long_function_name() { println!(\"你好👩🏽‍💻\"); }\n```";
    let lines = render(markdown, 18);
    let visible = lines.iter().map(StyledLine::plain_text).collect::<Vec<_>>();
    let rejoined_code = visible[1..visible.len() - 1]
        .iter()
        .map(|line| line.strip_prefix("  ").unwrap_or(line))
        .collect::<String>();

    assert!(rejoined_code.contains("fn extremely_long_function_name()"));
    assert!(text_with_color(&lines, ColorRole::SyntaxFunction).contains("extremely_long"));
    assert!(text_with_color(&lines, ColorRole::SyntaxString).contains("你好"));
    assert!(lines.iter().all(|line| line.width() <= 18));
}

#[test]
fn renders_full_border_tables_with_alignment_unicode_and_wrapping() {
    let markdown: &str = &[
        "| Left | Center | Right |\n",
        "| :--- | :----: | ----: |\n",
        "| 中文 | 👩🏽‍💻 | a long value that wraps |\n",
        "| x | y | 42 |\n",
    ].concat();
    let lines = render(markdown, 44);
    let visible = lines.iter().map(StyledLine::plain_text).collect::<Vec<_>>();

    assert!(visible.first().is_some_and(|line| line.starts_with('┌')));
    assert!(visible.first().is_some_and(|line| line.ends_with('┐')));
    assert!(
        visible
            .iter()
            .any(|line| line.starts_with('├') && line.ends_with('┤'))
    );
    assert!(visible.last().is_some_and(|line| line.starts_with('└')));
    assert!(visible.last().is_some_and(|line| line.ends_with('┘')));
    assert!(visible.iter().any(|line| line.contains("中文")));
    assert!(visible.iter().any(|line| line.contains("👩🏽‍💻")));
    let table_width = visible.first().map(|line| display_width(line)).unwrap();
    assert!(table_width <= 44);
    assert!(
        visible
            .iter()
            .all(|line| display_width(line) == table_width)
    );

    let compact = plain("| A | B |\n|---|---|\n| 1 | 2 |", 80);
    let compact_width = display_width(&compact[0]);
    assert!(compact_width < 80);
    assert!(
        compact
            .iter()
            .all(|line| display_width(line) == compact_width)
    );
}

#[test]
fn falls_back_to_a_framed_stacked_table_on_narrow_terminals() {
    let markdown =
        "| Name | Value |\n|---|---|\n| language | Rust |\n| status | stable and readable |";
    let lines = render(markdown, 24);
    let visible = lines.iter().map(StyledLine::plain_text).collect::<Vec<_>>();

    assert!(
        visible
            .first()
            .is_some_and(|line| line == "┌──────────────────────┐")
    );
    assert!(visible.iter().any(|line| line.contains("Name: language")));
    assert!(visible.iter().any(|line| line.contains("Value: Rust")));
    assert!(
        visible
            .last()
            .is_some_and(|line| line == "└──────────────────────┘")
    );
    assert!(visible.iter().all(|line| display_width(line) == 24));
}

#[test]
fn renders_math_footnotes_images_and_safe_html_fallbacks() {
    let markdown: &str = &[
        "Inline $E=mc^2$, image ![diagram](diagram.png), note[^n].\n\n",
        "$$\\sum_{i=1}^{n} i$$\n\n",
        "<span>inline html</span>\n\n",
        "<div>\nraw block\n</div>\n\n",
        "[^n]: footnote body\n",
    ].concat();
    let lines = render(markdown, 50);
    let visible = lines
        .iter()
        .map(StyledLine::plain_text)
        .collect::<Vec<_>>()
        .join("\n");

    assert!(visible.contains("Inline E=mc^2"));
    assert!(visible.contains("▧ diagram"));
    assert!(visible.contains("[n]"));
    assert!(visible.contains("│ \\sum_{i=1}^{n} i"));
    assert!(visible.contains("inline html"));
    assert!(visible.contains("<div>"));
    assert!(visible.contains("[n] footnote body"));
    assert!(
        lines
            .iter()
            .flat_map(|line| &line.spans)
            .any(|span| span.style.color == ColorRole::Math && span.text.contains("E=mc"))
    );
}

#[test]
fn is_unicode_width_correct_and_never_splits_grapheme_clusters() {
    assert_eq!(display_width("👩🏽‍💻"), 2);
    assert_eq!(display_width("e\u{301}"), 1);
    assert_eq!(display_width("中文"), 4);

    let markdown = "**👩🏽‍💻e\u{301}中文abcdef**";
    for width in 1..=12 {
        let lines = render(markdown, width);
        assert!(lines.iter().all(|line| line.width() <= width));
        assert!(
            lines
                .iter()
                .flat_map(|line| &line.spans)
                .all(|span| !span.text.starts_with('\u{200d}'))
        );
    }
}

#[test]
fn every_streaming_prefix_and_pathological_input_is_deterministic_and_safe() {
    let markdown: &str = &[
        "# 流式 👩🏽‍💻\n\n",
        "> [!NOTE]\n> **bold _nested_** and $x^2$\n\n",
        "| A | B |\n|:-|:-:|\n| `a\\|b` | [链接](https://例子.测试) |\n\n",
        "```rust\nfn main() { println!(\"你好\"); }\n```\n",
    ].concat();
    let syntaxes = Syntaxes::load();
    assert_eq!(render(markdown, 20), render_with(markdown, 20, &syntaxes));
    for end in markdown
        .char_indices()
        .map(|(index, _)| index)
        .chain(std::iter::once(markdown.len()))
    {
        let prefix = &markdown[..end];
        for width in [1, 2, 3, 4, 8, 20, 80] {
            let first = render_with(prefix, width, &syntaxes);
            assert_eq!(first, render_with(prefix, width, &syntaxes));
            assert!(first.iter().all(|line| line.width() <= width));
        }
    }

    let storm = format!(
        "{}middle{}",
        "*_~^`[$".repeat(2_000),
        "$]`^~_*".repeat(2_000)
    );
    assert_widths(&storm, 37);
}

#[test]
fn removes_terminal_controls_without_mutating_visible_plain_text() {
    let markdown = "before\u{1b}[2Jafter\0 **safe**\u{7}";
    let lines = render(markdown, 80);
    let visible = lines
        .iter()
        .map(StyledLine::plain_text)
        .collect::<Vec<_>>()
        .join("\n");

    assert_eq!(visible, "before[2Jafter safe");
    assert!(
        lines
            .iter()
            .flat_map(|line| &line.spans)
            .all(|span| span.text.chars().all(|character| !character.is_control()))
    );
}
