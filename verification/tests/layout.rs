//! What laying text out keeps, and how its lines line up.

use me::agent_markdown_renderer::content::inline_pieces;
use me::agent_markdown_renderer::display_width;
use me::agent_markdown_renderer::document::Node;
use me::agent_markdown_renderer::highlight::highlight_code;
use me::agent_markdown_renderer::highlight::Syntaxes;
use me::agent_markdown_renderer::inline::wrap_inline;
use me::agent_markdown_renderer::inline::InlinePiece;
use me::agent_markdown_renderer::literal::wrap_preserving_whitespace;
use me::agent_markdown_renderer::measure::graphemes;
use me::agent_markdown_renderer::render;
use me::agent_markdown_renderer::styled::clip_line;
use me::agent_markdown_renderer::styled::trim_blank_lines;
use me::agent_markdown_renderer::table::align_line;
use me::agent_markdown_renderer::document::Alignment;
use me::agent_markdown_renderer::urls::bare_url_ranges;
use me::agent_markdown_renderer::urls::push_text_with_bare_urls;
use me::agent_markdown_renderer::ColorRole;
use me::agent_markdown_renderer::StyledLine;
use me::agent_markdown_renderer::StyledSpan;
use me::agent_markdown_renderer::TextStyle;

const SAMPLE: &str = "# A **title**\n\ntext with `code`, *more* text and https://e.example/x.\n\n| A | B |\n|---|---|\n| 1 | two words |\n\n> quote\n\n1. one\n2. two\n\n```\nplain\n```\n";

fn joined(lines: &[StyledLine]) -> String {
    lines.iter().map(StyledLine::plain_text).collect()
}

fn line(parts: &[(&str, ColorRole)]) -> StyledLine {
    StyledLine {
        spans: parts
            .iter()
            .map(|(text, color)| StyledSpan::new(text, TextStyle::colored(*color)))
            .collect(),
    }
}

#[test]
fn shown_lines_have_no_empty_spans_and_no_equal_neighbours() {
    for width in [1, 5, 12, 40, 80] {
        for line in render(SAMPLE, width) {
            assert!(line.spans.iter().all(|span| !span.text.is_empty()));
            assert!(line.spans.windows(2).all(|pair| pair[0].style != pair[1].style));
        }
    }
}

#[test]
fn shown_lines_keep_within_their_width_cluster_by_cluster() {
    for width in [1, 5, 12, 40, 80] {
        for line in render(SAMPLE, width) {
            let columns: usize = line
                .spans
                .iter()
                .flat_map(|span| graphemes(&span.text))
                .map(|cluster| display_width(&cluster))
                .sum();
            assert!(columns <= width);
            assert!(line.width() <= width);
        }
    }
}

#[test]
fn clipping_cuts_between_clusters() {
    let clipped = clip_line(line(&[("ab", ColorRole::Primary), ("中👩🏽‍💻", ColorRole::Link)]), 5);
    assert_eq!(clipped.plain_text(), "ab中");
    assert_eq!(clipped.width(), 4);
}

#[test]
fn clusters_make_up_their_text() {
    let parts = graphemes("e\u{301}👩🏽‍💻\r\na\t");
    assert_eq!(parts, ["e\u{301}", "👩🏽‍💻", "\r\n", "a", "\t"]);
    assert_eq!(parts.concat(), "e\u{301}👩🏽‍💻\r\na\t");
}

#[test]
fn spaces_add_up() {
    assert_eq!(display_width("中"), 2);
    assert_eq!(display_width("  中   "), 7);
    assert_eq!(display_width("┌──┐"), 4);
    assert_eq!(display_width(""), 0);
}

#[test]
fn spans_can_be_wider_than_their_clusters() {
    let text = "\u{2018}\u{fe0e}\u{fe01}\u{5dc}";
    let columns: usize = graphemes(text).iter().map(|cluster| display_width(cluster)).sum();
    assert_eq!(columns, 2);
    assert_eq!(display_width(text), 3);
}

#[test]
fn literal_text_is_kept() {
    let lines = wrap_preserving_whitespace("a\tb  c\u{1b}\nde\n", 4, TextStyle::default());
    assert_eq!(
        lines.iter().map(StyledLine::plain_text).collect::<Vec<_>>(),
        ["a", "    ", "b  c", "de"]
    );
    assert_eq!(joined(&lines), "a    b  cde");
}

#[test]
fn what_fits_no_line_is_an_ellipsis() {
    let lines = wrap_preserving_whitespace("a中b", 1, TextStyle::default());
    assert_eq!(joined(&lines), "a…b");
}

#[test]
fn highlighting_keeps_the_text() {
    let syntaxes = Syntaxes::load();
    let code = "fn main() {\n    let text = \"你好\";\n}\n";
    let lines = highlight_code(code, "rust", 7, Some(&syntaxes)).unwrap();
    assert_eq!(joined(&lines), code.replace('\n', ""));
    assert!(lines.iter().all(|line| line.width() <= 7));
    assert!(highlight_code(code, "made-up-language", 7, Some(&syntaxes)).is_none());
    assert!(highlight_code(code, "", 7, Some(&syntaxes)).is_none());
}

#[test]
fn words_are_broken_between_clusters_and_kept() {
    let pieces = vec![InlinePiece::Span(StyledSpan::new("ab中e\u{301}👩🏽‍💻cd", TextStyle::default()))];
    for width in 2..10 {
        let lines = wrap_inline(&pieces, width);
        assert_eq!(joined(&lines), "ab中e\u{301}👩🏽‍💻cd");
        assert!(lines.iter().all(|line| line.width() <= width));
    }
}

#[test]
fn links_keep_the_text_and_are_addresses() {
    let text = "see (https://e.example/a_(b)), xhttps://no.example or http://e.";
    let mut pieces = Vec::new();
    push_text_with_bare_urls(&mut pieces, text, TextStyle::default());
    let mut all = String::new();
    let mut links = Vec::new();
    for piece in &pieces {
        if let InlinePiece::Span(span) = piece {
            all.push_str(&span.text);
            if span.style.color == ColorRole::Link {
                links.push(span.text.clone());
            }
        }
    }
    assert_eq!(all, text);
    assert_eq!(links, ["https://e.example/a_(b)", "http://e"]);
    let chars: Vec<char> = text.chars().collect();
    let ranges = bare_url_ranges(&chars);
    assert_eq!(ranges.len(), 2);
    assert!(ranges.windows(2).all(|pair| pair[0].1 <= pair[1].0));
}

#[test]
fn images_show_their_description_or_their_address() {
    let image = |description: &str| {
        vec![Node::Element {
            tag: me::agent_markdown_renderer::document::Tag::Image("a.png".to_owned()),
            children: vec![Node::Text(description.to_owned())],
        }]
    };
    let shown = |description: &str| {
        joined(&wrap_inline(&inline_pieces(&image(description), TextStyle::default()), 40))
    };
    assert_eq!(shown("plan"), "▧ plan");
    assert_eq!(shown(" "), "▧ a.png");
}

#[test]
fn filled_lines_are_as_wide_as_they_are_filled() {
    let filled = |alignment: Alignment| align_line(line(&[("中", ColorRole::Link)]), 5, alignment);
    assert_eq!(filled(Alignment::Left).plain_text(), "中   ");
    assert_eq!(filled(Alignment::Unset).plain_text(), "中   ");
    assert_eq!(filled(Alignment::Right).plain_text(), "   中");
    assert_eq!(filled(Alignment::Center).plain_text(), " 中  ");
    assert_eq!(filled(Alignment::Center).width(), 5);
}

#[test]
fn frames_of_code_are_as_wide_as_the_block() {
    for width in 2..20 {
        let lines = render("```x\ncode\n```", width);
        assert_eq!(lines[0].width(), width);
        assert_eq!(lines[lines.len() - 1].width(), width);
    }
}

#[test]
fn blank_lines_are_trimmed_on_either_side() {
    let blank = || line(&[("  ", ColorRole::Primary)]);
    let mut lines = vec![blank(), line(&[("a", ColorRole::Primary)]), blank(), line(&[("b", ColorRole::Primary)]), StyledLine::default()];
    trim_blank_lines(&mut lines);
    assert_eq!(
        lines.iter().map(StyledLine::plain_text).collect::<Vec<_>>(),
        ["a", "  ", "b"]
    );
    let mut none = vec![blank()];
    trim_blank_lines(&mut none);
    assert!(none.is_empty());
}

#[test]
fn pushing_joins_spans_of_a_style() {
    let mut line = StyledLine::default();
    line.push("a", TextStyle::default());
    line.push("b", TextStyle::default());
    line.push("", TextStyle::colored(ColorRole::Link));
    line.push("c", TextStyle::colored(ColorRole::Link));
    line.prepend("x", TextStyle::default());
    assert_eq!(line.spans.len(), 2);
    assert_eq!(line.plain_text(), "xabc");
}

#[test]
fn a_line_can_be_wider_than_its_columns_where_its_text_is_wider_than_its_clusters() {
    let lines = render("\u{2018}\u{fe0e}\u{fe01}\u{5dc}", 2);
    assert_eq!(lines.len(), 1);
    assert_eq!(lines[0].width(), 3);
    let columns: usize = graphemes(&lines[0].plain_text())
        .iter()
        .map(|cluster| display_width(cluster))
        .sum();
    assert_eq!(columns, 2);
}

#[test]
fn no_columns_are_one() {
    assert_eq!(render(SAMPLE, 0), render(SAMPLE, 1));
}

#[test]
fn plain_characters_are_clusters_of_one_column() {
    let text: String = (' '..='~').chain('\u{2500}'..='\u{257f}').chain(['…']).collect();
    let reversed: String = text.chars().rev().collect();
    for text in [text, reversed] {
        let count = text.chars().count();
        assert_eq!(graphemes(&text).len(), count);
        assert_eq!(display_width(&text), count);
    }
}

#[test]
fn wrapped_lines_fit() {
    let pieces = [InlinePiece::Span(StyledSpan::new(
        "some words, a verylongword and 中文 in between",
        TextStyle::default(),
    ))];
    for width in 1..30 {
        let lines = wrap_inline(&Vec::from(pieces.clone()), width);
        assert!(lines.iter().all(|line| line.width() <= width), "width {width}");
        let code = wrap_preserving_whitespace("\tfn 名() {}\n", width, TextStyle::default());
        assert!(code.iter().all(|line| line.width() <= width), "width {width}");
    }
}
