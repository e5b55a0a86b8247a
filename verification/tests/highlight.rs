//! Code in the colours of its language.

use std::str::FromStr;

use me::agent_markdown_renderer::highlight::better;
use me::agent_markdown_renderer::highlight::highlight_code;
use me::agent_markdown_renderer::highlight::match_strength;
use me::agent_markdown_renderer::highlight::normalized_language_token;
use me::agent_markdown_renderer::highlight::Match;
use me::agent_markdown_renderer::highlight::Syntaxes;
use me::agent_markdown_renderer::highlight::MAX_LINE;
use me::agent_markdown_renderer::highlight::MAX_STRENGTH;
use me::agent_markdown_renderer::ColorRole;
use me::agent_markdown_renderer::StyledLine;
use two_face::re_exports::syntect::easy::ScopeRegionIterator;
use two_face::re_exports::syntect::highlighting::ScopeSelectors;
use two_face::re_exports::syntect::parsing::ParseState;
use two_face::re_exports::syntect::parsing::ScopeStack;

const SELECTORS: [(&str, ColorRole); 9] = [
    ("constant, support.constant", ColorRole::SyntaxConstant),
    (
        "entity.other.attribute-name, support.type.property-name, variable",
        ColorRole::SyntaxVariable,
    ),
    (
        "entity.name.function, support.function, variable.function",
        ColorRole::SyntaxFunction,
    ),
    (
        "entity.name.type, entity.name.class, entity.name.struct, entity.name.enum, support.type, support.class",
        ColorRole::SyntaxType,
    ),
    ("keyword - keyword.operator", ColorRole::SyntaxKeyword),
    (
        "storage, keyword.declaration, entity.name.tag",
        ColorRole::SyntaxDeclaration,
    ),
    ("constant.numeric", ColorRole::SyntaxNumber),
    ("string, constant.other.symbol", ColorRole::SyntaxString),
    ("comment", ColorRole::SyntaxComment),
];

const SAMPLES: [(&str, &str); 9] = [
    (
        "rust",
        "/// Doc.\n#[derive(Clone)]\npub struct Point<'a> { x: u8, name: &'a str }\nimpl Point<'_> {\n    fn sum(&self) -> u32 { self.x as u32 + 0x1f - 'c' as u32 } // end\n}\nconst TEXT: &str = \"a\\n{b}\";\nmacro_rules! m { ($a:expr) => { println!(\"{}\", $a) } }\n",
    ),
    (
        "python",
        "import os\n\n@decorator\nclass A(B):\n    \"\"\"Doc.\"\"\"\n    def f(self, x=None, *args):\n        return f\"{x!r:>{3}} {len(args)}\" if x else 1e-3\n",
    ),
    (
        "html",
        "<!DOCTYPE html>\n<p class=\"a\" id=b>text &amp; <b>more</b></p>\n<style>p > a { color: #fff; }</style>\n<script>const a = `x${1 + b.c()}`; // end\n</script>\n<!-- comment -->\n",
    ),
    (
        "css",
        "@media (min-width: 10px) { a:hover, .b#c { margin: 0 auto !important; --x: var(--y); } }\n/* comment */\n",
    ),
    ("json", "{\"a\": [1, -2.5e3, true, null, \"x\\u0041\"]}\n"),
    (
        "bash",
        "#!/bin/bash\nfor f in \"$@\"; do echo \"${f%.*} $(wc -l < \"$f\")\" | grep -v '^#'; done\ncat <<EOF\nhere $HOME\nEOF\nexit 0\n",
    ),
    (
        "cpp",
        "#include <vector>\n#define X(a) #a\ntemplate <typename T> class V : public W { virtual int f() const override { return R\"x(raw)x\"[0] + 0b11; } };\n",
    ),
    (
        "yaml",
        "a: &anchor\n  - 1\n  - \"two\"\n  - !!str three\nb: *anchor # end\n",
    ),
    (
        "markdown",
        "# Title\n\n*a* **b** `c` [d](e \"f\")\n\n```rust\nfn g() -> bool { true }\n```\n",
    ),
];

/// The colour of each character, and the character, without line breaks.
fn colors(lines: &[StyledLine]) -> Vec<(char, ColorRole)> {
    lines
        .iter()
        .flat_map(|line| line.spans.iter())
        .flat_map(|span| span.text.chars().map(|c| (c, span.style.color)))
        .collect()
}

fn role_by_power(selectors: &[(ScopeSelectors, ColorRole)], stack: &ScopeStack) -> ColorRole {
    selectors
        .iter()
        .filter_map(|(selector, role)| {
            selector.does_match(stack.as_slice()).map(|power| (power, *role))
        })
        .max_by_key(|(power, _)| *power)
        .map(|(_, role)| role)
        .unwrap_or(ColorRole::Primary)
}

#[test]
fn colours_are_those_of_the_most_powerful_match() {
    let syntaxes = Syntaxes::load();
    let set = two_face::syntax::extra_newlines();
    let selectors: Vec<(ScopeSelectors, ColorRole)> = SELECTORS
        .iter()
        .map(|(source, role)| (ScopeSelectors::from_str(source).unwrap(), *role))
        .collect();
    for (language, code) in SAMPLES {
        let token = normalized_language_token(language);
        let mut parser = ParseState::new(set.find_syntax_by_token(&token).unwrap());
        let mut stack = ScopeStack::new();
        let mut expected: Vec<(char, ColorRole)> = Vec::new();
        for line in code.split_inclusive('\n') {
            let changes = parser.parse_line(line, &set).unwrap();
            for (text, change) in ScopeRegionIterator::new(&changes, line) {
                stack.apply(change).unwrap();
                let role = role_by_power(&selectors, &stack);
                expected.extend(text.chars().filter(|c| *c != '\n').map(|c| (c, role)));
            }
        }
        let lines = highlight_code(code, language, 1000, Some(&syntaxes)).unwrap();
        assert_eq!(colors(&lines), expected, "{language}");
    }
}

#[test]
fn samples_have_every_colour() {
    let syntaxes = Syntaxes::load();
    let mut found: Vec<ColorRole> = Vec::new();
    for (language, code) in SAMPLES {
        let lines = highlight_code(code, language, 1000, Some(&syntaxes)).unwrap();
        found.extend(colors(&lines).into_iter().map(|(_, role)| role));
    }
    for (_, role) in SELECTORS {
        assert!(found.contains(&role), "{role:?}");
    }
    assert!(found.contains(&ColorRole::Primary));
}

#[test]
fn deeper_matches_are_stronger_and_longer_ones_at_the_same_place() {
    assert_eq!(match_strength(0, 1), 1);
    assert_eq!(match_strength(3, 2), 26);
    assert!(match_strength(4, 1) > match_strength(3, 7));
    assert!(match_strength(3, 3) > match_strength(3, 2));
    assert_eq!(match_strength(341, 1), MAX_STRENGTH - 1);
    assert_eq!(match_strength(341, 2), MAX_STRENGTH);
    assert_eq!(match_strength(342, 1), MAX_STRENGTH);
    assert_eq!(match_strength(21845, 7), MAX_STRENGTH);
}

#[test]
fn strengths_order_as_powers_of_eight() {
    let mut all: Vec<(u64, f64)> = Vec::new();
    for place in [0_usize, 1, 2, 17, 18, 100, 339, 340, 341, 342, 400] {
        for atoms in 1..8_u64 {
            let score = atoms as f64 * f64::from(3 * place as u16).exp2();
            all.push((match_strength(place, atoms), score));
        }
    }
    for (strength, score) in &all {
        for (other, against) in &all {
            assert_eq!(strength <= other, score <= against);
        }
    }
}

#[test]
fn the_last_of_equally_strong_matches_is_better() {
    let first = better(None, Some(9), ColorRole::SyntaxKeyword);
    assert_eq!(first, Some(Match { strength: 9, role: ColorRole::SyntaxKeyword }));
    assert_eq!(
        better(first, Some(9), ColorRole::SyntaxString),
        Some(Match { strength: 9, role: ColorRole::SyntaxString })
    );
    assert_eq!(better(first, Some(8), ColorRole::SyntaxString), first);
    assert_eq!(better(first, None, ColorRole::SyntaxString), first);
    assert_eq!(better(None, None, ColorRole::SyntaxString), None);
}

#[test]
fn long_names_of_constructs_are_found_again() {
    let syntaxes = Syntaxes::load();
    let name = "ω".repeat(MAX_LINE - 20);
    let code = format!("cat <<{name}\nhere\n{name}\nexit 0\n");
    let lines = highlight_code(&code, "bash", 80, Some(&syntaxes)).unwrap();
    let shown: String = lines.iter().map(StyledLine::plain_text).collect();
    assert_eq!(shown, code.replace('\n', ""));
    let code = format!("#+BEGIN_{name}\nhere\n#+END_{name}\n");
    assert!(highlight_code(&code, "org", 80, Some(&syntaxes)).is_some());
}

#[test]
fn lines_that_are_too_long_are_not_coloured() {
    let syntaxes = Syntaxes::load();
    let longest = format!("{}\n", "a".repeat(MAX_LINE - 1));
    assert!(highlight_code(&longest, "rust", 80, Some(&syntaxes)).is_some());
    let longer = format!("let a = 1;\n{}\n", "a".repeat(MAX_LINE));
    assert!(highlight_code(&longer, "rust", 80, Some(&syntaxes)).is_none());
}
