use static_atoms::config::{get_dist_path, Action, Configuration};
use static_atoms::context::Context;
use static_atoms::filetype::FileType;
use static_atoms::markdown::{detect_list_type, rule_line, ListKind};
use static_atoms::scanner::find_same_level;
use static_atoms::site::{build_default_context, build_pages_context};
use static_atoms::store::ContentStore;

fn chars(s: &str) -> Vec<char> {
    s.chars().collect()
}

fn config() -> Configuration {
    Configuration {
        root: "/site".to_string(),
        out: None,
        input_files: Vec::new(),
        clean: false,
        write: true,
        verbose: false,
        max_depth: 8,
        hide_extension: false,
    }
}

#[test]
fn scanner_finds_matching_close() {
    assert_eq!(find_same_level(None, "<## a>", '>', false), Some(5));
    assert_eq!(find_same_level(None, "<## e(x=\"<>\")>", '>', false), Some(13));
    assert_eq!(find_same_level(None, "<## a", '>', false), None);
    assert_eq!(find_same_level(None, "[a [b]] c]", ']', false), Some(6));
    assert_eq!(find_same_level(Some('['), "a]b", ']', true), None);
    assert_eq!(find_same_level(None, "a)b", ')', true), Some(1));
    assert_eq!(find_same_level(None, "x'a)'b)", ')', false), Some(6));
    assert_eq!(find_same_level(None, "", ')', false), None);
}

#[test]
fn context_bindings() {
    let mut context = Context::new();
    assert_eq!(context.get("a"), None);
    context.insert("a", "1");
    context.insert("b", "2");
    context.insert("a", "3");
    assert_eq!(context.get("a"), Some("3".to_string()));
    assert_eq!(context.get("b"), Some("2".to_string()));
    let copy = context.duplicate();
    assert_eq!(copy.get("a"), Some("3".to_string()));
}

#[test]
fn store_keeps_one_file_per_path() {
    let mut store = ContentStore::new();
    store.add_file("b.html", "B");
    store.add_file("a.html", "A");
    store.add_file("b.html", "B2");
    assert_eq!(store.content("a.html"), Some("A".to_string()));
    assert_eq!(store.content("b.html"), Some("B2".to_string()));
    assert_eq!(store.content("c.html"), None);
}

#[test]
fn dist_path_and_description() {
    let mut c = config();
    assert_eq!(get_dist_path(&c), "/site/dist");
    c.root = "/site/".to_string();
    assert_eq!(get_dist_path(&c), "/site/dist");
    c.out = Some("/out".to_string());
    assert_eq!(get_dist_path(&c), "/out");
    let d = config().describe();
    assert_eq!(
        d,
        "  root: `/site`\n  out: `<root>/dist`\n  clean: `false`\n  write: `true`\n  max_depth: `8`"
    );
    assert!(Action::RunDist != Action::RunHelp);
}

#[test]
fn file_types() {
    assert_eq!(FileType::FileHTML.extension(), "html");
    assert_eq!(FileType::FileMarkdown.extension(), "md");
    assert_eq!(FileType::FileText.extension(), "txt");
    assert!(!FileType::Directory.is_file());
    assert!(FileType::FileText.is_file());
    assert_eq!(
        FileType::get_valid_filetypes(),
        vec![FileType::FileHTML, FileType::FileMarkdown, FileType::FileText]
    );
    assert!(FileType::has_valid_extension("pages/a.html"));
    assert!(FileType::has_valid_extension("a.b.md"));
    assert!(!FileType::has_valid_extension("a.png"));
    assert!(!FileType::has_valid_extension(".md"));
    assert!(!FileType::has_valid_extension("dir.md/file"));
}

#[test]
fn convert_content_by_kind() {
    let c = config();
    let store = ContentStore::new();
    let context = Context::new();
    assert_eq!(FileType::FileText.convert_content("".into(), "# x", &c, &store, 0, &context).0, "# x");
    assert_eq!(FileType::FileMarkdown.convert_content("".into(), "# x", &c, &store, 0, &context).0, "<h1>x</h1>");
    assert_eq!(FileType::FileHTML.convert_content("".into(), "# x", &c, &store, 0, &context).0, "# x");
}

#[test]
fn list_markers() {
    assert_eq!(detect_list_type(&chars("* a"), false), Some((ListKind::UnorderedAsterisk, 0, 2)));
    assert_eq!(detect_list_type(&chars("+ a"), false), Some((ListKind::UnorderedPlus, 0, 2)));
    assert_eq!(detect_list_type(&chars("+ a"), true), Some((ListKind::UnorderedAsterisk, 0, 2)));
    assert_eq!(detect_list_type(&chars("- a"), false), Some((ListKind::UnorderedDash, 0, 2)));
    assert_eq!(detect_list_type(&chars("12. a"), false), Some((ListKind::OrderedDot, 12, 3)));
    assert_eq!(detect_list_type(&chars("7) a"), false), Some((ListKind::OrderedBracket, 7, 2)));
    assert_eq!(detect_list_type(&chars("7.a"), false), None);
    assert_eq!(detect_list_type(&chars("*a"), false), None);
    assert_eq!(detect_list_type(&chars(". a"), false), None);
    assert_eq!(detect_list_type(&chars("99999999999999999999999. a"), false), None);
}

#[test]
fn rules() {
    assert!(rule_line(&chars("***")));
    assert!(rule_line(&chars("_____")));
    assert!(!rule_line(&chars("--")));
    assert!(!rule_line(&chars("-*-")));
}

#[test]
fn site_index_and_default_context() {
    let mut c = config();
    let pages = vec!["/site/index.html".to_string(), "/site/pages/testpage.html".to_string()];
    let index = "<ul class=\"siteindex\"><li><a href=\"/\">index.html</a></li><li><a href=\"/pages/testpage.html\">pages/testpage.html</a></li></ul>";
    assert_eq!(build_pages_context(&c, &pages), index);
    c.hide_extension = true;
    let hidden = build_pages_context(&c, &pages);
    assert_eq!(
        hidden,
        "<ul class=\"siteindex\"><li><a href=\"/\">index.html</a></li><li><a href=\"/pages/testpage\">pages/testpage</a></li></ul>"
    );
    c.hide_extension = false;
    let context = build_default_context(&c, &pages, "static_atoms", "1.0.0", "https://example.org");
    assert_eq!(context.get("_VERSION"), Some("1.0.0".to_string()));
    assert_eq!(context.get("_APPNAME"), Some("static_atoms".to_string()));
    assert_eq!(context.get("_APPLINK"), Some("<a href=\"https://example.org\">static_atoms</a>".to_string()));
    assert_eq!(context.get("_PAGES"), Some(index.to_string()));
}
