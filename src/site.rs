//! The site index and the variables every page can read.
use vstd::prelude::*;
use crate::config::{Configuration, join_path, join_path_chars};
use crate::context::Context;
use crate::filetype::{last_index_exec, last_index_of};
use crate::store::dir_prefix;
use crate::text::{chars_of, copy_chars, equal_chars, matches_at, occurs_at, push_all, push_str, slice, string_of};

verus! {

/// `page` relative to `root`: what follows the root and a `/`, or the page
/// itself when it does not lie under the root.
pub open spec fn relative_to(root: Seq<char>, page: Seq<char>) -> Seq<char> {
    let pre = dir_prefix(root);
    if page == root {
        Seq::empty()
    } else if occurs_at(page, pre, 0) {
        page.subrange(pre.len() as int, page.len() as int)
    } else {
        page
    }
}

/// The directory part of a `/`-separated path: what stands before its last `/`.
pub open spec fn parent_of(p: Seq<char>) -> Seq<char> {
    match last_index_of(p, '/') {
        Some(k) => p.subrange(0, k),
        None => Seq::empty(),
    }
}

/// The file name of a path without its extension.
pub open spec fn stem_of(p: Seq<char>) -> Seq<char> {
    let name = match last_index_of(p, '/') {
        Some(k) => p.subrange(k + 1, p.len() as int),
        None => p,
    };
    if name == seq!['.', '.'] {
        Seq::empty()
    } else {
        match last_index_of(name, '.') {
            Some(k) => if k == 0 { name } else { name.subrange(0, k) },
            None => name,
        }
    }
}

/// The name a page is written under: its stem, with `.html` for the index
/// page or when extensions are shown.
pub open spec fn page_file(rel: Seq<char>, hide_extension: bool) -> Seq<char> {
    let stem = stem_of(rel);
    if stem == "index"@ || !hide_extension { stem + ".html"@ } else { stem }
}

/// The entry of one page in the site index.
pub open spec fn page_entry(root: Seq<char>, page: Seq<char>, hide_extension: bool) -> Seq<char> {
    let rel = relative_to(root, page);
    let file = page_file(rel, hide_extension);
    let label = join_path(parent_of(rel), file);
    let href = if file != "index.html"@ { label } else { parent_of(rel) };
    "<li><a href=\"/"@ + href + "\">"@ + label + "</a></li>"@
}

pub open spec fn page_entries(root: Seq<char>, pages: Seq<Seq<char>>, hide_extension: bool) -> Seq<char>
    decreases pages.len(),
{
    if pages.len() == 0 {
        Seq::empty()
    } else {
        page_entries(root, pages.drop_last(), hide_extension) + page_entry(root, pages.last(), hide_extension)
    }
}

/// The site index: a list with one link per page, in the order given.
pub open spec fn pages_index(root: Seq<char>, pages: Seq<Seq<char>>, hide_extension: bool) -> Seq<char> {
    "<ul class=\"siteindex\">"@ + page_entries(root, pages, hide_extension) + "</ul>"@
}

fn relative_exec(root: &Vec<char>, page: &Vec<char>) -> (r: Vec<char>)
    ensures
        r@ == relative_to(root@, page@),
{
    let mut pre = copy_chars(root);
    if !(pre.len() > 0 && pre[pre.len() - 1] == '/') {
        pre.push('/');
    }
    assert(pre@ == dir_prefix(root@));
    if equal_chars(page, root) {
        Vec::new()
    } else if matches_at(page, &pre, 0) {
        slice(page, pre.len(), page.len())
    } else {
        copy_chars(page)
    }
}

fn parent_exec(p: &Vec<char>) -> (r: Vec<char>)
    ensures
        r@ == parent_of(p@),
{
    match last_index_exec(p, '/') {
        Some(k) => slice(p, 0, k),
        None => Vec::new(),
    }
}

fn stem_exec(p: &Vec<char>) -> (r: Vec<char>)
    ensures
        r@ == stem_of(p@),
{
    let name = match last_index_exec(p, '/') {
        Some(k) => slice(p, k + 1, p.len()),
        None => copy_chars(p),
    };
    if name.len() == 2 && name[0] == '.' && name[1] == '.' {
        assert(name@ =~= seq!['.', '.']);
        return Vec::new();
    }
    assert(name@ != seq!['.', '.']) by {
        if name@ == seq!['.', '.'] {
            assert(name@.len() == 2);
        }
    }
    match last_index_exec(&name, '.') {
        Some(k) => if k == 0 { name } else { slice(&name, 0, k) },
        None => name,
    }
}

fn page_entry_exec(root: &Vec<char>, page: &Vec<char>, hide_extension: bool, out: &mut Vec<char>)
    ensures
        final(out)@ == old(out)@ + page_entry(root@, page@, hide_extension),
{
    let rel = relative_exec(root, page);
    let mut file = stem_exec(&rel);
    let index = chars_of("index");
    let index_html = chars_of("index.html");
    if equal_chars(&file, &index) || !hide_extension {
        push_str(&mut file, ".html");
    }
    let parent = parent_exec(&rel);
    let label = join_path_chars(&parent, &file);
    let href = if !equal_chars(&file, &index_html) { copy_chars(&label) } else { copy_chars(&parent) };
    push_str(out, "<li><a href=\"/");
    push_all(out, &href);
    push_str(out, "\">");
    push_all(out, &label);
    push_str(out, "</a></li>");
    assert(final(out)@ =~= old(out)@ + page_entry(root@, page@, hide_extension));
}

/// The site index of `input_pages`, paths under the configured root.
pub fn build_pages_context(config: &Configuration, input_pages: &Vec<String>) -> (r: String)
    ensures
        r@ == pages_index(config.root@, input_pages@.map_values(|p: String| p@), config.hide_extension),
{
    let ghost pages = input_pages@.map_values(|p: String| p@);
    let root = chars_of(config.root.as_str());
    let mut out: Vec<char> = Vec::new();
    push_str(&mut out, "<ul class=\"siteindex\">");
    let ghost head = out@;
    let mut i: usize = 0;
    while i < input_pages.len()
        invariant
            i <= input_pages.len(),
            root@ == config.root@,
            pages == input_pages@.map_values(|p: String| p@),
            out@ == head + page_entries(config.root@, pages.subrange(0, i as int), config.hide_extension),
        decreases input_pages.len() - i,
    {
        let page = chars_of(input_pages[i].as_str());
        assert(pages.subrange(0, i + 1).drop_last() =~= pages.subrange(0, i as int));
        page_entry_exec(&root, &page, config.hide_extension, &mut out);
        assert(out@ =~= head + page_entries(config.root@, pages.subrange(0, i + 1), config.hide_extension));
        i = i + 1;
    }
    assert(pages.subrange(0, i as int) =~= pages);
    push_str(&mut out, "</ul>");
    string_of(&out)
}

/// The variables of every page: the version, name and link of the
/// application that builds it, and the site index.
pub fn build_default_context(
    config: &Configuration,
    input_pages: &Vec<String>,
    app_name: &str,
    app_version: &str,
    app_homepage: &str,
) -> (r: Context)
    ensures
        r@ == Map::<Seq<char>, Seq<char>>::empty()
            .insert("_VERSION"@, app_version@)
            .insert("_APPNAME"@, app_name@)
            .insert("_APPLINK"@, "<a href=\""@ + app_homepage@ + "\">"@ + app_name@ + "</a>"@)
            .insert("_PAGES"@, pages_index(config.root@, input_pages@.map_values(|p: String| p@), config.hide_extension)),
{
    let pages = build_pages_context(config, input_pages);
    let mut link: Vec<char> = Vec::new();
    push_str(&mut link, "<a href=\"");
    push_str(&mut link, app_homepage);
    push_str(&mut link, "\">");
    push_str(&mut link, app_name);
    push_str(&mut link, "</a>");
    assert(link@ =~= "<a href=\""@ + app_homepage@ + "\">"@ + app_name@ + "</a>"@);
    let mut context = Context::new();
    context.insert("_VERSION", app_version);
    context.insert("_APPNAME", app_name);
    context.insert_chars(chars_of("_APPLINK"), link);
    context.insert("_PAGES", pages.as_str());
    context
}

} // verus!
