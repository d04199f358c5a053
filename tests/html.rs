use static_atoms::config::Configuration;
use static_atoms::context::Context;
use static_atoms::embed;
use static_atoms::embed::{
    parse_parametric_embed, parse_single_embed, parse_token, parse_variable, resolve_embeds,
    resolve_tokens_from_path, resolve_tokens_html,
};
use static_atoms::site::build_default_context;
use static_atoms::store::ContentStore;

fn get_config() -> Configuration {
    Configuration {
        root: "/tmp/static_atoms_rs_tests".to_string(),
        out: None,
        input_files: Vec::new(),
        clean: false,
        write: false,
        verbose: true,
        max_depth: u8::MAX,
        hide_extension: false,
    }
}

fn config_with_depth(max_depth: u8) -> Configuration {
    let mut config = get_config();
    config.max_depth = max_depth;
    config.verbose = false;
    config
}

fn embed_list_store() -> ContentStore {
    let mut store = ContentStore::new();
    store.add_file("sections/embed_list/3.html", "<p>3</p>");
    store.add_file("sections/embed_list/1.html", "<p>1</p>");
    store.add_file("sections/embed_list/4.html", "<p>4</p>");
    store.add_file("sections/embed_list/2.html", "<p>2</p>");
    store
}

#[test]
fn parse_simple() {
    let config = get_config();
    let store = ContentStore::new();
    let in_text = "<html><body><p>TEST</p></body></html>".to_owned();
    let contents = resolve_tokens_html("".into(), &config, &store, &in_text, 0, &Context::new()).0;

    assert_eq!(in_text, contents);
}

#[test]
fn parse_embed() {
    let config = get_config();
    let mut store = ContentStore::new();
    store.add_file("sections/my_embed.html", "<p>TEST</p>");
    let in_text = "<html><body><## my_embed></body></html>".to_owned();
    let out_text = "<html><body><p>TEST</p></body></html>".to_owned();
    let contents = resolve_tokens_html("".into(), &config, &store, &in_text, 0, &Context::new()).0;

    assert_eq!(out_text, contents);
}

#[test]
fn parse_embed_brackets() {
    let config = get_config();
    let mut store = ContentStore::new();
    store.add_file("sections/my_embed.html", "<p>TEST</p>");
    let in_text = "<html><body><## my_embed()></body></html>".to_owned();
    let out_text = "<html><body><p>TEST</p></body></html>".to_owned();
    let contents = resolve_tokens_html("".into(), &config, &store, &in_text, 0, &Context::new()).0;

    assert_eq!(out_text, contents);
}

#[test]
fn parse_variable_embed() {
    let config = get_config();
    let store = ContentStore::new();
    let in_text = "<html><body><## {my_embed}></body></html>".to_owned();
    let out_text = "<html><body><p>TEST</p></body></html>".to_owned();
    let mut context = Context::new();
    context.insert("my_embed", "<p>TEST</p>");

    let contents = resolve_tokens_html("".into(), &config, &store, &in_text, 0, &context).0;

    assert_eq!(out_text, contents);
}

#[test]
fn parse_folder_embed() {
    let config = get_config();
    let store = embed_list_store();
    let in_text = "<html><body><## embed_list[]></body></html>".to_owned();
    let out_text = "<html><body><p>1</p><p>2</p><p>3</p><p>4</p></body></html>".to_owned();

    let contents = resolve_tokens_html("".into(), &config, &store, &in_text, 0, &Context::new()).0;

    assert_eq!(out_text, contents);
}

#[test]
fn parse_folder_limit_embed() {
    let config = get_config();
    let store = embed_list_store();
    let in_text = "<html><body><## embed_list[..2]></body></html>".to_owned();
    let out_text = "<html><body><p>1</p><p>2</p></body></html>".to_owned();

    let contents = resolve_tokens_html("".into(), &config, &store, &in_text, 0, &Context::new()).0;

    assert_eq!(out_text, contents);
}

#[test]
fn parse_default_variables() {
    let config = get_config();
    let mut store = ContentStore::new();
    store.add_file("pages/testpage.html", "<p>test</p>");

    let pages_vec = vec![
        "/tmp/static_atoms_rs_tests/index.html".to_string(),
        "/tmp/static_atoms_rs_tests/pages/testpage.html".to_string(),
    ];
    let version = "0.3.1".to_string();
    let appname = "static_atoms".to_string();
    let applink = format!("<a href=\"{}\">{}</a>", "https://example.org/static_atoms", "static_atoms");
    let pages = "<ul class=\"siteindex\"><li><a href=\"/\">index.html</a></li><li><a href=\"/pages/testpage.html\">pages/testpage.html</a></li></ul>";
    let context = build_default_context(&config, &pages_vec, &appname, &version, "https://example.org/static_atoms");

    let in_text =
        "<html><body><## {_VERSION}><## {_APPNAME}><## {_APPLINK}><## {_PAGES}></body></html>"
            .to_owned();

    let out_text = format!("<html><body>{version}{appname}{applink}{pages}</body></html>");

    let contents = resolve_tokens_html("".into(), &config, &store, &in_text, 0, &context).0;

    assert_eq!(out_text, contents);
}

#[test]
fn parse_parametric() {
    let config = get_config();
    let mut store = ContentStore::new();
    store.add_file("sections/embed_name.html", "<p><## {var1}><## {var2}></p>");
    let in_text = "<html><body><## embed_name(var1=\"v1\" var2=\"v2\")></body></html>".to_owned();
    let out_text = "<html><body><p>v1v2</p></body></html>".to_owned();

    let contents = resolve_tokens_html("".into(), &config, &store, &in_text, 0, &Context::new()).0;

    assert_eq!(out_text, contents);
}

#[test]
fn parse_parametric_edge_cases() {
    let config = get_config();
    let mut store = ContentStore::new();
    store.add_file("sections/embed_name2.html", "<p><## {var1}><## {var2}></p>");
    let in_text =
        "<html><body><## embed_name2(var1=\"v1()\" var2=\"<## {var3}>\")></body></html>".to_owned();
    let out_text = "<html><body><p>v1()v2</p></body></html>".to_owned();

    let mut context = Context::new();
    context.insert("var3", "v2");
    let contents = resolve_tokens_html("".into(), &config, &store, &in_text, 0, &context).0;

    assert_eq!(out_text, contents);
}

#[test]
fn text_without_markers_is_unchanged() {
    let config = get_config();
    let store = ContentStore::new();
    let text = "<p>a < b and [x] ## no marker</p>";
    let contents = resolve_tokens_html("".into(), &config, &store, text, 0, &Context::new()).0;
    assert_eq!(contents, text);
    let md = resolve_embeds("".into(), &config, &store, text, 0, &Context::new(), ("[##", ']')).0;
    assert_eq!(md, text);
}

#[test]
fn missing_variable_is_empty() {
    let config = get_config();
    let store = ContentStore::new();
    let contents = resolve_tokens_html("".into(), &config, &store, "a<## {x}>b", 0, &Context::new()).0;
    assert_eq!(contents, "ab");
}

#[test]
fn missing_section_is_empty() {
    let config = get_config();
    let store = ContentStore::new();
    let contents = resolve_tokens_html("".into(), &config, &store, "a<## nothing>b", 0, &Context::new()).0;
    assert_eq!(contents, "ab");
}

#[test]
fn depth_guard_cuts_long_chains() {
    let mut store = ContentStore::new();
    store.add_file("sections/a.html", "A<## b>");
    store.add_file("sections/b.html", "B<## c>");
    store.add_file("sections/c.html", "C");
    let shallow = config_with_depth(2);
    let deep = config_with_depth(3);
    let cut = resolve_tokens_html("".into(), &shallow, &store, "<## a>", 0, &Context::new()).0;
    assert_eq!(cut, "AB");
    let whole = resolve_tokens_html("".into(), &deep, &store, "<## a>", 0, &Context::new()).0;
    assert_eq!(whole, "ABC");
    let none = resolve_tokens_html("".into(), &shallow, &store, "x<## a>y<## {v}>z", 2, &Context::new()).0;
    assert_eq!(none, "xyz");
}

#[test]
fn self_embedding_section_stops() {
    let mut store = ContentStore::new();
    store.add_file("sections/me.html", "m<## me>");
    let config = config_with_depth(4);
    let contents = resolve_tokens_html("".into(), &config, &store, "<## me>", 0, &Context::new()).0;
    assert_eq!(contents, "mmmm");
}

#[test]
fn unterminated_marker_is_left() {
    let config = get_config();
    let store = ContentStore::new();
    let contents = resolve_tokens_html("".into(), &config, &store, "a<## b", 0, &Context::new()).0;
    assert_eq!(contents, "a<## b");
}

#[test]
fn parametric_single_quotes_and_overrides() {
    let config = get_config();
    let mut store = ContentStore::new();
    store.add_file("sections/e.html", "<## {a}>|<## {b}>");
    let mut context = Context::new();
    context.insert("a", "outer");
    let contents = resolve_tokens_html(
        "".into(), &config, &store, "<## e(b='say \"hi\"' a=\"x\" a=\"y\")><## {a}>", 0, &context,
    ).0;
    assert_eq!(contents, "y|say \"hi\"outer");
}

#[test]
fn folder_limit_above_count_and_malformed() {
    let config = get_config();
    let store = embed_list_store();
    let all = "<p>1</p><p>2</p><p>3</p><p>4</p>";
    let big = resolve_tokens_html("".into(), &config, &store, "<## embed_list[..9]>", 0, &Context::new()).0;
    assert_eq!(big, all);
    let bad = resolve_tokens_html("".into(), &config, &store, "<## embed_list[..x]>", 0, &Context::new()).0;
    assert_eq!(bad, all);
    let huge = resolve_tokens_html("".into(), &config, &store, "<## embed_list[..99999999999999999999999]>", 0, &Context::new()).0;
    assert_eq!(huge, all);
    let plus = resolve_tokens_html("".into(), &config, &store, "<## embed_list[..+1]>", 0, &Context::new()).0;
    assert_eq!(plus, "<p>1</p>");
    let zero = resolve_tokens_html("".into(), &config, &store, "<## embed_list[..0]>", 0, &Context::new()).0;
    assert_eq!(zero, "");
    let missing = resolve_tokens_html("".into(), &config, &store, "<## nowhere[]>", 0, &Context::new()).0;
    assert_eq!(missing, "");
}

#[test]
fn folder_skips_other_extensions_and_subdirectories() {
    let config = get_config();
    let mut store = embed_list_store();
    store.add_file("sections/embed_list/0.png", "binary");
    store.add_file("sections/embed_list/sub/9.html", "<p>9</p>");
    store.add_file("sections/embed_list/5.txt", "five");
    let contents = resolve_tokens_html("".into(), &config, &store, "<## embed_list[]>", 0, &Context::new()).0;
    assert_eq!(contents, "<p>1</p><p>2</p><p>3</p><p>4</p>five");
}

#[test]
fn markdown_and_text_sections() {
    let config = get_config();
    let mut store = ContentStore::new();
    store.add_file("sections/note.md", "# Title\nbody");
    store.add_file("sections/plain.txt", "<## {x}>");
    let contents = resolve_tokens_html("".into(), &config, &store, "<## note>|<## plain>", 0, &Context::new()).0;
    assert_eq!(contents, "<h1>Title</h1><p>body</p>|");
}

#[test]
fn public_parse_functions() {
    let config = get_config();
    let mut store = ContentStore::new();
    store.add_file("sections/s.txt", "S");
    store.add_file("sections/s.html", "<b>S</b>");
    let mut context = Context::new();
    context.insert("v", "V");
    assert_eq!(parse_variable("v", &context).0, "V");
    assert_eq!(parse_variable("w", &context).0, "");
    assert_eq!(parse_token("".into(), &config, &store, "<## {v}>", 0, &context).0, "V");
    assert_eq!(parse_single_embed("".into(), &config, &store, "s", 0, &context).0, "<b>S</b>");
    assert_eq!(parse_single_embed("".into(), &config, &store, "s.txt", 0, &context).0, "S");
    assert_eq!(parse_parametric_embed("".into(), &config, &store, "s()", 0, (1, 2), &context).0, "<b>S</b>");
    assert_eq!(embed::parse_folder_embed("".into(), &config, &store, "none[]", 0, (4, 5), &context).0, "");
    assert_eq!(resolve_tokens_from_path("".into(), "sections/s", &config, &store, 0, &context).0, Some("<b>S</b>".to_string()));
    assert_eq!(resolve_tokens_from_path("".into(), "sections/t", &config, &store, 0, &context).0, None);
}

#[test]
fn diagnostics_are_reported() {
    let config = config_with_depth(1);
    let mut store = ContentStore::new();
    store.add_file("sections/deep.html", "<## deeper>");
    let (text, log) = resolve_tokens_html("page.html".into(), &config, &store, "a<## {x}>b", 0, &Context::new());
    assert_eq!(text, "ab");
    assert_eq!(log, vec!["page.html: The variable `x` is undefined, replacing with empty space.".to_string()]);
    let (_, log) = resolve_tokens_html("".into(), &config, &store, "<## missing><## gone[]><## deep>", 0, &Context::new());
    assert_eq!(log.len(), 3);
    assert!(log[0].contains("`missing`"));
    assert!(log[1].contains("`sections/gone`"));
    assert!(log[2].contains("max recursion depth of 1"));
    assert!(log[2].starts_with("sections/deep: "));
    let (_, log) = resolve_tokens_html("page.html".into(), &config, &store, "<## deep>", 0, &Context::new());
    assert!(log[0].starts_with("sections/deep >> page.html: "));
    let (value, log) = parse_variable("v", &Context::new());
    assert_eq!(value, "");
    assert_eq!(log.len(), 1);
    let (found, log) = resolve_tokens_from_path("".into(), "sections/deep", &config, &store, 0, &Context::new());
    assert_eq!(found, Some(String::new()));
    assert_eq!(log.len(), 1);
    let (_, log) = resolve_tokens_html("".into(), &get_config(), &store, "<## a(b=\"1\" c)><## x]y>", 0, &Context::new());
    assert!(log.iter().any(|m| m.contains("couldn't be parsed completely")));
    assert!(log.iter().any(|m| m.contains("incomplete or malformed")));
    let (_, log) = resolve_tokens_html("".into(), &get_config(), &store, "<## a", 0, &Context::new());
    assert!(log.iter().any(|m| m.contains("Cannot resolve this token")));
    assert!(log[0].starts_with("[verbose] found next open marker at index 0"));
}

#[test]
fn folder_and_section_diagnostics() {
    let config = get_config();
    let store = embed_list_store();
    let (all, log) = embed::parse_folder_embed("".into(), &config, &store, "embed_list[..x]", 0, (10, 14), &Context::new());
    assert_eq!(all, "<p>1</p><p>2</p><p>3</p><p>4</p>");
    assert_eq!(log.len(), 1);
    assert!(log[0].contains("does not give a count"));
    let (none, log) = embed::parse_folder_embed("".into(), &config, &store, "nowhere[]", 0, (7, 8), &Context::new());
    assert_eq!(none, "");
    assert_eq!(log.len(), 1);
    assert!(log[0].contains("`sections/nowhere` is unknown"));
    let (fine, log) = embed::parse_folder_embed("".into(), &config, &store, "embed_list[..2]", 0, (10, 14), &Context::new());
    assert_eq!(fine, "<p>1</p><p>2</p>");
    assert!(log.is_empty());
    let (missing, log) = parse_single_embed("".into(), &config, &store, "absent", 0, &Context::new());
    assert_eq!(missing, "");
    assert_eq!(log.len(), 1);
    let (value, log) = parse_variable("x", &Context::new());
    assert_eq!(value, "");
    assert_eq!(log, vec!["The variable `x` is undefined, replacing with empty space.".to_string()]);
}
