use static_server::listing::{
    check_is_file, construct_response_page, fetch_all_files, parent_link, EntryProbe, File,
    FileType, PAGE_HEAD,
};
use static_server::order::{name_precedes, sort_files};

const HEAD: &str = "<!DOCTYPE html><html><head><title>File List</title><style>\n            \
     body { font-family: -apple-system, BlinkMacSystemFont, 'Segoe UI', Roboto, Helvetica, Arial, sans-serif; margin: 2em; background-color: #f9f9f9; color: #333; }\n            \
     h1 { color: #111; }\n            \
     ul { list-style-type: none; padding: 0; }\n            \
     li { display: flex; justify-content: space-between; padding: 10px; border-bottom: 1px solid #eee; }\n            \
     li:hover { background-color: #f0f0f0; }\n            \
     a { text-decoration: none; color: #007aff; }\n            \
     .dir a { font-weight: bold; }\n            \
     .size { color: #888; font-size: 0.9em; text-align: right; }\n        \
     </style></head><body>";

fn file(name: &str, size: u64) -> File {
    File { name: name.to_string(), isdir: false, size }
}

fn dir(name: &str) -> File {
    File { name: name.to_string(), isdir: true, size: 0 }
}

fn probe(name: &str, is_file: bool, is_dir: bool, len: u64) -> EntryProbe {
    EntryProbe { name: name.to_string(), is_file, is_dir, len }
}

#[test]
fn page_head_is_the_fixed_opening() {
    assert_eq!(PAGE_HEAD, HEAD);
    assert_eq!(PAGE_HEAD.len(), 681);
    assert!(PAGE_HEAD.starts_with("<!DOCTYPE html><html><head><title>File List</title><style>\n            body {"));
    assert!(PAGE_HEAD.ends_with("text-align: right; }\n        </style></head><body>"));
}

#[test]
fn classification_of_a_path() {
    assert_eq!(check_is_file(true, true, false), FileType::File);
    assert_eq!(check_is_file(true, false, true), FileType::Directory);
    assert_eq!(check_is_file(true, false, false), FileType::NotFound);
    assert_eq!(check_is_file(false, false, false), FileType::NotFound);
    assert_eq!(check_is_file(false, true, false), FileType::NotFound);
    assert_eq!(check_is_file(false, false, true), FileType::NotFound);
    assert_eq!(check_is_file(false, true, true), FileType::NotFound);
    assert_eq!(check_is_file(true, true, true), FileType::File);
}

#[test]
fn listing_keeps_files_and_directories() {
    let files = fetch_all_files(vec![
        probe("a.txt", true, false, 5),
        probe("pipe", false, false, 0),
        probe("sub", false, true, 4096),
    ]);
    assert_eq!(files, vec![file("a.txt", 5), dir("sub")]);
}

#[test]
fn listing_of_nothing_is_empty() {
    assert_eq!(fetch_all_files(Vec::new()), Vec::<File>::new());
    assert_eq!(fetch_all_files(vec![probe("sock", false, false, 9)]), Vec::<File>::new());
}

#[test]
fn listing_is_sorted_by_name() {
    let files = fetch_all_files(vec![
        probe("b", true, false, 2),
        probe("a", false, true, 0),
        probe("c", true, false, 3),
        probe("B", true, false, 4),
        probe("ab", true, false, 5),
        probe("", true, false, 6),
    ]);
    assert_eq!(
        files,
        vec![file("", 6), file("B", 4), dir("a"), file("ab", 5), file("b", 2), file("c", 3)]
    );
}

#[test]
fn listing_does_not_depend_on_enumeration_order() {
    let one = fetch_all_files(vec![
        probe("x", true, false, 1),
        probe("y", false, true, 0),
        probe("z", true, false, 3),
    ]);
    let other = fetch_all_files(vec![
        probe("z", true, false, 3),
        probe("x", true, false, 1),
        probe("y", false, true, 0),
    ]);
    assert_eq!(one, other);
}

#[test]
fn sort_is_stable() {
    let sorted = sort_files(vec![file("n", 3), file("m", 9), file("n", 1), file("n", 2), file("m", 0)]);
    assert_eq!(sorted, vec![file("m", 9), file("m", 0), file("n", 3), file("n", 1), file("n", 2)]);
}

#[test]
fn sort_of_sorted_and_reversed() {
    let sorted = vec![file("a", 1), file("b", 2), file("c", 3), file("d", 4)];
    assert_eq!(sort_files(sorted.clone()), sorted);
    let mut reversed = sorted.clone();
    reversed.reverse();
    assert_eq!(sort_files(reversed), sorted);
    assert_eq!(sort_files(Vec::new()), Vec::<File>::new());
}

#[test]
fn names_are_ordered_as_strings() {
    let names = ["", "a", "A", "ab", "b", "\u{e9}", "z", "\u{20AC}", "a/b", "a b", "\u{10FFFF}", "aa"];
    for a in names {
        for b in names {
            assert_eq!(name_precedes(a, b), a <= b, "{:?} {:?}", a, b);
        }
    }
}

#[test]
fn parent_link_of_root_is_absent() {
    assert_eq!(parent_link("/"), None);
}

#[test]
fn parent_link_of_other_paths() {
    assert_eq!(parent_link("/a"), Some("/".to_string()));
    assert_eq!(parent_link("/a/b"), Some("/a".to_string()));
    assert_eq!(parent_link("/a/b/"), Some("/a".to_string()));
    assert_eq!(parent_link("a"), Some("".to_string()));
    assert_eq!(parent_link(""), Some("/".to_string()));
    assert_eq!(parent_link("//"), Some("/".to_string()));
}

#[test]
fn page_of_root_has_no_parent_link() {
    let page = construct_response_page(&vec![file("a.txt", 5)], "/");
    assert!(!page.contains("Parent Directory"));
    assert_eq!(
        page,
        format!(
            "{}{}{}{}",
            HEAD,
            "<h1>Index of /</h1><ul>",
            "<li class='file'><a href='/a.txt'>a.txt</a><span class='size'>5 bytes</span></li>",
            "</ul></body></html>"
        )
    );
}

#[test]
fn page_of_empty_root() {
    let page = construct_response_page(&Vec::new(), "/");
    assert_eq!(page, format!("{}<h1>Index of /</h1><ul></ul></body></html>", HEAD));
}

#[test]
fn page_of_subdirectory_has_parent_link() {
    let page = construct_response_page(&vec![dir("inner"), file("b.txt", 1048576)], "/sub");
    assert_eq!(
        page,
        format!(
            "{}{}{}{}{}{}",
            HEAD,
            "<h1>Index of /sub</h1><ul>",
            "<li class='dir'><a href='/'>.. (Parent Directory)</a><span class='size'></span></li>",
            "<li class='dir'><a href='/sub/inner'>inner</a><span class='size'>&lt;DIR&gt;</span></li>",
            "<li class='file'><a href='/sub/b.txt'>b.txt</a><span class='size'>1048576 bytes</span></li>",
            "</ul></body></html>"
        )
    );
}

#[test]
fn page_links_do_not_double_the_separator() {
    let page = construct_response_page(&vec![file("c", 0)], "/sub/deep/");
    assert_eq!(
        page,
        format!(
            "{}{}{}{}{}",
            HEAD,
            "<h1>Index of /sub/deep/</h1><ul>",
            "<li class='dir'><a href='/sub'>.. (Parent Directory)</a><span class='size'></span></li>",
            "<li class='file'><a href='/sub/deep/c'>c</a><span class='size'>0 bytes</span></li>",
            "</ul></body></html>"
        )
    );
}

#[test]
fn page_of_relative_request() {
    let page = construct_response_page(&vec![file("f", 18446744073709551615)], "dir");
    assert_eq!(
        page,
        format!(
            "{}{}{}{}{}",
            HEAD,
            "<h1>Index of dir</h1><ul>",
            "<li class='dir'><a href=''>.. (Parent Directory)</a><span class='size'></span></li>",
            "<li class='file'><a href='dir/f'>f</a><span class='size'>18446744073709551615 bytes</span></li>",
            "</ul></body></html>"
        )
    );
}

#[test]
fn page_shows_files_in_the_order_given() {
    let page = construct_response_page(&vec![file("z", 1), file("a", 2)], "/");
    let z = page.find("href='/z'").unwrap();
    let a = page.find("href='/a'").unwrap();
    assert!(z < a);
}

#[test]
fn every_page_but_the_roots_has_a_parent_link() {
    for path in ["/a", "/a/", "//", "", "a", "/a/b/c", "/ ", "/.."] {
        let page = construct_response_page(&Vec::new(), path);
        assert!(page.contains(">.. (Parent Directory)</a>"), "{:?}", path);
    }
}
