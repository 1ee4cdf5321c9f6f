use ayuc::pretty::config::{Config, Mode};
use ayuc::pretty::doc::Doc;
use ayuc::pretty::renderer::Renderer;

fn function_doc() -> Doc {
    Doc::concat(vec![
        Doc::text("fn main() {"),
        Doc::indent(Doc::concat(vec![Doc::Hardline, Doc::text("a"), Doc::StmtSep, Doc::text("b")])),
        Doc::Hardline,
        Doc::text("}"),
    ])
}

#[test]
fn renders_pretty_with_indentation() {
    let mut renderer = Renderer::new();
    assert_eq!(renderer.render(&function_doc()), "fn main() {    \n    a\n    b\n}");
}

#[test]
fn renders_one_line() {
    let mut renderer = Renderer::new().with_config(Config { mode: Mode::OneLine, indent_level: 4 });
    let text = renderer.render(&function_doc());
    assert_eq!(text, "fn main() { a;b }");
    assert!(!text.contains('\n'));
}

#[test]
fn indent_level_comes_from_the_config() {
    let mut renderer = Renderer::default().with_config(Config { mode: Mode::Pretty, indent_level: 2 });
    let doc = Doc::indent(Doc::concat(vec![Doc::text("x"), Doc::Hardline, Doc::text("y")]));
    assert_eq!(renderer.render(&doc), "  x\n  y");
}

#[test]
fn nested_indentation_grows_per_level() {
    let mut renderer = Renderer::new();
    let doc = Doc::indent(Doc::indent(Doc::concat(vec![Doc::Hardline, Doc::text("z")])));
    // Outer level: the unit, then the inner rendering (unit + newline at depth 2).
    assert_eq!(renderer.render(&doc), "        \n        z");
}

#[test]
fn blanklines_and_separators() {
    let mut pretty = Renderer::new();
    let doc = Doc::concat(vec![Doc::text("a"), Doc::Blankline, Doc::text("b")]);
    assert_eq!(pretty.render(&doc), "a\nb");
    let mut one = Renderer::new().with_config(Config { mode: Mode::OneLine, indent_level: 4 });
    assert_eq!(one.render(&doc), "ab");
    let list = Doc::Separated(vec![Doc::text("a"), Doc::text("b"), Doc::text("c")], Box::new(Doc::text(", ")));
    assert_eq!(pretty.render(&list), "a, b, c");
    let empty = Doc::Separated(vec![], Box::new(Doc::text(", ")));
    assert_eq!(pretty.render(&empty), "");
}

#[test]
fn empty_documents_render_nothing() {
    let mut renderer = Renderer::new();
    let docs = vec![
        Doc::Skip,
        Doc::text(""),
        Doc::concat(vec![]),
        Doc::concat(vec![Doc::Skip, Doc::text("")]),
        Doc::indent(Doc::Skip),
    ];
    for doc in &docs {
        assert!(doc.is_empty());
        assert_eq!(renderer.render(doc), "");
    }
    assert!(!Doc::Hardline.is_empty());
    assert!(!Doc::text("x").is_empty());
    assert!(!Doc::concat(vec![Doc::Skip, Doc::text("x")]).is_empty());
}

#[test]
fn rendering_keeps_the_renderer_reusable() {
    let mut renderer = Renderer::new();
    let first = renderer.render(&function_doc());
    let second = renderer.render(&function_doc());
    assert_eq!(first, second);
}

#[test]
fn default_config_is_pretty_with_four_spaces() {
    let config = Config::default();
    assert!(matches!(config.mode, Mode::Pretty));
    assert_eq!(config.indent_level, 4);
}

#[test]
fn rendering_again_concatenating_and_emptiness() {
    let mut renderer = Renderer::new();
    let doc = function_doc();
    let first = renderer.render(&doc);
    assert_eq!(renderer.render(&doc), first);
    let a = Doc::text("let x");
    let b = Doc::concat(vec![Doc::text(" = "), Doc::text("1")]);
    let both = Doc::concat(vec![a.clone(), b.clone()]);
    let joined = renderer.render(&a) + &renderer.render(&b);
    assert_eq!(renderer.render(&both), joined);
    assert_eq!(renderer.render(&Doc::concat(Vec::new())), "");
    for d in [
        Doc::Skip,
        Doc::text(""),
        Doc::indent(Doc::concat(vec![Doc::Skip, Doc::text("")])),
        Doc::text("x"),
        Doc::Blankline,
        Doc::Hardline,
        Doc::StmtSep,
        Doc::indent(Doc::text("y")),
    ] {
        assert_eq!(d.is_empty(), renderer.render(&d).is_empty());
    }
}
