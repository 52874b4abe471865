//! Directory listings: what a directory holds, and the page that shows it.
//!
//! A listing shows the immediate children of a directory that are plain files or
//! directories, sorted by name, so that the page for a directory does not depend on the order
//! in which the filesystem happens to enumerate it. Names and paths go into the page as they
//! are: nothing is escaped.

use crate::request::{
    lemma_request_names_its_target, parse_request, request_for, target_of, url_decoded,
};
use crate::order::{
    in_name_order, lemma_sorted_by_name_ignores_order, names_differ, sort_files, sorted_by_name,
};
use crate::resolver::relative_of;
use crate::text::{chars_of, decimal, decimal_text, is_whitespace};
use vstd::prelude::*;
use vstd::string::StringExecFns;

verus! {

/// What a resolved path turns out to be.
#[derive(Clone, Copy, Debug, PartialEq, Eq, Structural)]
pub enum FileType {
    File,
    Directory,
    NotFound,
}

/// One child of a directory, as the listing shows it.
#[derive(Clone, Debug, PartialEq, Eq)]
pub struct File {
    pub name: String,
    pub isdir: bool,
    /// The size in bytes; zero for a directory.
    pub size: u64,
}

/// The value of a [`File`].
pub ghost struct FileView {
    pub name: Seq<char>,
    pub isdir: bool,
    pub size: u64,
}

impl View for File {
    type V = FileView;

    open spec fn view(&self) -> FileView {
        FileView { name: self.name@, isdir: self.isdir, size: self.size }
    }
}

impl DeepView for File {
    type V = FileView;

    open spec fn deep_view(&self) -> FileView {
        self@
    }
}

/// One child of a directory, as the filesystem reports it.
#[derive(Clone, Debug, PartialEq, Eq)]
pub struct EntryProbe {
    pub name: String,
    pub is_file: bool,
    pub is_dir: bool,
    /// The length in bytes that the filesystem gives for the entry.
    pub len: u64,
}

/// The value of an [`EntryProbe`].
pub ghost struct EntryProbeView {
    pub name: Seq<char>,
    pub is_file: bool,
    pub is_dir: bool,
    pub len: u64,
}

impl View for EntryProbe {
    type V = EntryProbeView;

    open spec fn view(&self) -> EntryProbeView {
        EntryProbeView { name: self.name@, is_file: self.is_file, is_dir: self.is_dir, len: self.len }
    }
}

impl DeepView for EntryProbe {
    type V = EntryProbeView;

    open spec fn deep_view(&self) -> EntryProbeView {
        self@
    }
}

/// What a path is, given what the filesystem says of it: a plain file, a directory, or
/// neither (also where it does not exist any more).
pub open spec fn file_type_of(found: bool, is_file: bool, is_dir: bool) -> FileType {
    if !found {
        FileType::NotFound
    } else if is_file {
        FileType::File
    } else if is_dir {
        FileType::Directory
    } else {
        FileType::NotFound
    }
}

/// Classifies a resolved path from what the filesystem says of it.
pub fn check_is_file(found: bool, is_file: bool, is_dir: bool) -> (kind: FileType)
    ensures
        kind == file_type_of(found, is_file, is_dir),
{
    if !found {
        return FileType::NotFound;
    }
    if is_file {
        FileType::File
    } else if is_dir {
        FileType::Directory
    } else {
        FileType::NotFound
    }
}

/// How the listing shows `entry`: a plain file with its length, a directory with size zero,
/// anything else not at all.
pub open spec fn listed_entry(entry: EntryProbeView) -> Option<FileView> {
    if entry.is_file {
        Some(FileView { name: entry.name, isdir: false, size: entry.len })
    } else if entry.is_dir {
        Some(FileView { name: entry.name, isdir: true, size: 0 })
    } else {
        None
    }
}

/// The children that a listing shows, in the order of `entries`.
pub open spec fn children(entries: Seq<EntryProbeView>) -> Seq<FileView>
    decreases entries.len(),
{
    if entries.len() == 0 {
        Seq::empty()
    } else {
        match listed_entry(entries.last()) {
            Some(file) => children(entries.drop_last()).push(file),
            None => children(entries.drop_last()),
        }
    }
}

/// The children that a listing shows, in the order in which it shows them: by name.
pub open spec fn listed(entries: Seq<EntryProbeView>) -> Seq<FileView> {
    sorted_by_name(children(entries))
}

fn keep_children(entries: Vec<EntryProbe>) -> (files: Vec<File>)
    ensures
        files.deep_view() == children(entries.deep_view()),
{
    let ghost all = entries.deep_view();
    let mut files: Vec<File> = Vec::new();
    for entry in it: entries
        invariant
            it.seq().len() == all.len(),
            forall|j: int| 0 <= j < all.len() ==> it.seq()[j]@ == all[j],
            files.deep_view() == children(all.take(it.index() as int)),
    {
        let ghost k = it.index() as int;
        assert(all.take(k + 1).drop_last() =~= all.take(k));
        assert(all.take(k + 1).last() == entry@);
        let ghost before = files.deep_view();
        if entry.is_file {
            files.push(File { name: entry.name, isdir: false, size: entry.len });
            assert(files.deep_view() =~= before.push(listed_entry(entry@)->0));
        } else if entry.is_dir {
            files.push(File { name: entry.name, isdir: true, size: 0 });
            assert(files.deep_view() =~= before.push(listed_entry(entry@)->0));
        }
    }
    assert(all.take(all.len() as int) =~= all);
    files
}

/// Builds the list of children to show from the entries of a directory: the plain files,
/// each with its length, and the directories, sorted by name. Entries that are neither are
/// left out.
pub fn fetch_all_files(entries: Vec<EntryProbe>) -> (files: Vec<File>)
    ensures
        files.deep_view() == listed(entries.deep_view()),
        in_name_order(files.deep_view()),
        files.deep_view().to_multiset() == children(entries.deep_view()).to_multiset(),
{
    sort_files(keep_children(entries))
}

/// The opening of every listing page, up to the start of its body.
pub const PAGE_HEAD: &'static str =
    "<!DOCTYPE html><html><head><title>File List</title><style>\n            \
     body { font-family: -apple-system, BlinkMacSystemFont, 'Segoe UI', Roboto, Helvetica, Arial, sans-serif; margin: 2em; background-color: #f9f9f9; color: #333; }\n            \
     h1 { color: #111; }\n            \
     ul { list-style-type: none; padding: 0; }\n            \
     li { display: flex; justify-content: space-between; padding: 10px; border-bottom: 1px solid #eee; }\n            \
     li:hover { background-color: #f0f0f0; }\n            \
     a { text-decoration: none; color: #007aff; }\n            \
     .dir a { font-weight: bold; }\n            \
     .size { color: #888; font-size: 0.9em; text-align: right; }\n        \
     </style></head><body>";

/// The address that the listing of `received` gives to the child `name`: the requested path,
/// a separator unless the path ends in one, and the name.
pub open spec fn entry_link(received: Seq<char>, name: Seq<char>) -> Seq<char> {
    if received.len() > 0 && received.last() == '/' {
        received + name
    } else {
        received + "/"@ + name
    }
}

/// What stands in the size column for `file`.
pub open spec fn size_info(file: FileView) -> Seq<char> {
    if file.isdir {
        "&lt;DIR&gt;"@
    } else {
        decimal(file.size as nat) + " bytes"@
    }
}

/// The style class of the item for `file`.
pub open spec fn item_class(file: FileView) -> Seq<char> {
    if file.isdir {
        "dir"@
    } else {
        "file"@
    }
}

/// The list item for the child `file` in the listing of `received`.
pub open spec fn entry_item(received: Seq<char>, file: FileView) -> Seq<char> {
    "<li class='"@ + item_class(file) + "'><a href='"@ + entry_link(received, file.name) + "'>"@
        + file.name + "</a><span class='size'>"@ + size_info(file) + "</span></li>"@
}

/// The list items for the children `files`, in their order.
pub open spec fn entry_items(received: Seq<char>, files: Seq<FileView>) -> Seq<char>
    decreases files.len(),
{
    if files.len() == 0 {
        Seq::empty()
    } else {
        entry_items(received, files.drop_last()) + entry_item(received, files.last())
    }
}

/// What `std::path::Path::parent` makes of `path`, as text: the path without its final
/// component, or `None` where it ends in a root or is empty. Paths are read in the syntax of
/// the platform that the library is built for.
pub uninterp spec fn parent_of(path: Seq<char>) -> Option<Seq<char>>;

/// Where the parent-directory link of the listing of `received` leads, if the listing has
/// one: every listing has one but that of the root, `/`.
pub open spec fn parent_href(received: Seq<char>) -> Option<Seq<char>> {
    if received == "/"@ {
        None
    } else {
        match parent_of(received) {
            Some(parent) => Some(parent),
            None => Some("/"@),
        }
    }
}

/// The list item that leads to the parent directory at `href`.
pub open spec fn parent_item(href: Seq<char>) -> Seq<char> {
    "<li class='dir'><a href='"@ + href + "'>.. (Parent Directory)</a><span class='size'></span></li>"@
}

/// The list item for the parent directory, or nothing where the listing has none.
pub open spec fn parent_items(href: Option<Seq<char>>) -> Seq<char> {
    match href {
        Some(h) => parent_item(h),
        None => Seq::empty(),
    }
}

/// The listing page for the directory requested as `received`, with the children `files`.
pub open spec fn listing_page(files: Seq<FileView>, received: Seq<char>) -> Seq<char> {
    PAGE_HEAD@ + "<h1>Index of "@ + received + "</h1><ul>"@ + parent_items(parent_href(received))
        + entry_items(received, files) + "</ul></body></html>"@
}

/// The view of an optional text.
pub open spec fn text_view(text: Option<String>) -> Option<Seq<char>> {
    match text {
        Some(t) => Some(t@),
        None => None,
    }
}

/// Calls `std::path::Path::parent` on `path` and hands the parent back as text.
///
/// Trusted: the result is the function's own, `parent_of` of the input.
#[verifier::external_body]
fn path_parent(path: &str) -> (parent: Option<String>)
    ensures
        text_view(parent) == parent_of(path@),
{
    match std::path::Path::new(path).parent() {
        Some(p) => match p.to_str() {
            Some(s) => Some(s.to_string()),
            None => None,
        },
        None => None,
    }
}

/// Where the parent-directory link of a listing leads. The listing of the root, `/`, has no
/// such link; every other listing has one, to the parent of the requested path, or to `/`
/// where the path has no parent.
pub fn parent_link(received_path: &str) -> (href: Option<String>)
    ensures
        text_view(href) == parent_href(received_path@),
        href is None <==> received_path@ == "/"@,
{
    proof {
        reveal_strlit("/");
    }
    let chars = chars_of(received_path);
    if chars.len() == 1 && chars[0] == '/' {
        assert(received_path@ =~= "/"@);
        None
    } else {
        match path_parent(received_path) {
            Some(parent) => Some(parent),
            None => Some(String::from_str("/")),
        }
    }
}

fn entry_link_text(received_path: &str, ends_in_separator: bool, name: &str) -> (link: String)
    requires
        ends_in_separator == (received_path@.len() > 0 && received_path@.last() == '/'),
    ensures
        link@ == entry_link(received_path@, name@),
{
    let mut link = String::from_str(received_path);
    if !ends_in_separator {
        link.append("/");
    }
    link.append(name);
    link
}

fn size_info_text(file: &File) -> (info: String)
    ensures
        info@ == size_info(file@),
{
    if file.isdir {
        String::from_str("&lt;DIR&gt;")
    } else {
        let mut info = decimal_text(file.size);
        info.append(" bytes");
        info
    }
}

fn entry_item_text(received_path: &str, ends_in_separator: bool, file: &File) -> (item: String)
    requires
        ends_in_separator == (received_path@.len() > 0 && received_path@.last() == '/'),
    ensures
        item@ == entry_item(received_path@, file@),
{
    let link = entry_link_text(received_path, ends_in_separator, file.name.as_str());
    let info = size_info_text(file);
    let mut item = String::from_str("<li class='");
    item.append(if file.isdir { "dir" } else { "file" });
    item.append("'><a href='");
    item.append(link.as_str());
    item.append("'>");
    item.append(file.name.as_str());
    item.append("</a><span class='size'>");
    item.append(info.as_str());
    item.append("</span></li>");
    item
}

/// Builds the listing page for the directory requested as `received_path`: a heading, the
/// link to the parent directory unless the request was for `/`, and one item for each of
/// `files`, with its name, a link made of the requested path and the name, and its size in
/// bytes or the directory mark.
pub fn construct_response_page(files: &Vec<File>, received_path: &str) -> (page: String)
    ensures
        page@ == listing_page(files.deep_view(), received_path@),
{
    let chars = chars_of(received_path);
    let ends_in_separator = chars.len() > 0 && chars[chars.len() - 1] == '/';
    let mut page = String::from_str(PAGE_HEAD);
    page.append("<h1>Index of ");
    page.append(received_path);
    page.append("</h1><ul>");
    match parent_link(received_path) {
        Some(href) => {
            let mut item = String::from_str("<li class='dir'><a href='");
            item.append(href.as_str());
            item.append("'>.. (Parent Directory)</a><span class='size'></span></li>");
            page.append(item.as_str());
        },
        None => {
            assert(page@ + Seq::<char>::empty() =~= page@);
        },
    }
    let ghost start = page@;
    let ghost shown = files.deep_view();
    let mut i: usize = 0;
    while i < files.len()
        invariant
            i <= files.len(),
            shown == files.deep_view(),
            ends_in_separator == (received_path@.len() > 0 && received_path@.last() == '/'),
            page@ == start + entry_items(received_path@, shown.take(i as int)),
        decreases files.len() - i,
    {
        let item = entry_item_text(received_path, ends_in_separator, &files[i]);
        assert(shown.take(i + 1).drop_last() =~= shown.take(i as int));
        assert(shown.take(i + 1).last() == files[i as int]@);
        let ghost before = entry_items(received_path@, shown.take(i as int));
        assert(start + (before + item@) =~= (start + before) + item@);
        page.append(item.as_str());
        i = i + 1;
    }
    assert(shown.take(files.len() as int) =~= shown);
    page.append("</ul></body></html>");
    page
}

/// The listing of the root has no link to a parent directory; the listing of any other path
/// has one, before the items of the children.
pub proof fn lemma_parent_link_unless_root(files: Seq<FileView>, received: Seq<char>)
    ensures
        parent_href(received) is None <==> received == "/"@,
        received == "/"@ ==> listing_page(files, received) == PAGE_HEAD@ + "<h1>Index of "@
            + received + "</h1><ul>"@ + entry_items(received, files) + "</ul></body></html>"@,
        received != "/"@ ==> listing_page(files, received) == PAGE_HEAD@ + "<h1>Index of "@
            + received + "</h1><ul>"@ + parent_item(parent_href(received)->0) + entry_items(
            received,
            files,
        ) + "</ul></body></html>"@,
{
    let opening = PAGE_HEAD@ + "<h1>Index of "@ + received + "</h1><ul>"@;
    assert(opening + Seq::<char>::empty() =~= opening);
}

/// The path of the child `name` of the directory at the relative path `dir`: the two joined
/// by a separator, unless `dir` is empty or ends in one.
pub open spec fn child_of(dir: Seq<char>, name: Seq<char>) -> Seq<char> {
    if dir.len() == 0 || dir.last() == '/' {
        dir + name
    } else {
        dir + "/"@ + name
    }
}

/// The link of an entry leads to the entry: what is joined onto the root for the link that
/// the listing of `received` gives to `name` is the child `name` of what was joined onto the
/// root for `received` itself.
pub proof fn lemma_entry_link_names_child(received: Seq<char>, name: Seq<char>)
    ensures
        relative_of(entry_link(received, name)) == child_of(relative_of(received), name),
{
    reveal_strlit("/");
    let link = entry_link(received, name);
    if received.len() == 0 {
        assert(link =~= "/"@ + name);
        assert(link.skip(1) =~= name);
        assert(child_of(relative_of(received), name) =~= name);
    } else if received[0] == '/' {
        let dir = received.skip(1);
        if received.last() == '/' {
            assert(link.skip(1) =~= dir + name);
            if dir.len() > 0 {
                assert(dir.last() == received.last());
            }
        } else {
            assert(dir.len() > 0);
            assert(dir.last() == received.last());
            assert(link.skip(1) =~= dir + "/"@ + name);
        }
    } else {
        assert(link[0] == received[0]);
    }
}

/// Following the link of an entry asks for the entry. A request for the link that the
/// listing of `received` gives to `name` is parsed to that link, and what it has joined onto
/// the root is the child `name` of the listed directory. This holds where the link holds no
/// whitespace and decodes to itself, as every link without a percent sign does.
pub proof fn lemma_entry_link_round_trip(received: Seq<char>, name: Seq<char>, rest: Seq<char>)
    requires
        forall|i: int|
            0 <= i < entry_link(received, name).len() ==> !is_whitespace(
                #[trigger] entry_link(received, name)[i],
            ),
        url_decoded(entry_link(received, name)) == Some(entry_link(received, name)),
    ensures
        target_of(parse_request(request_for(entry_link(received, name)) + rest)) == entry_link(
            received,
            name,
        ),
        relative_of(target_of(parse_request(request_for(entry_link(received, name)) + rest)))
            == child_of(relative_of(received), name),
{
    reveal_strlit("/");
    let link = entry_link(received, name);
    assert(link.len() > 0);
    lemma_request_names_its_target(link, rest);
    lemma_entry_link_names_child(received, name);
}

/// Whether no two of `entries` have the same name.
pub open spec fn entry_names_differ(entries: Seq<EntryProbeView>) -> bool {
    forall|i: int, j: int| 0 <= i < j < entries.len() ==> entries[i].name != entries[j].name
}

/// Every child that is shown has the name of an entry, and where no two entries have the same
/// name, no two children have.
proof fn lemma_children_names(entries: Seq<EntryProbeView>)
    ensures
        forall|i: int|
            0 <= i < children(entries).len() ==> exists|k: int|
                0 <= k < entries.len() && entries[k].name == (#[trigger] children(entries)[i]).name,
        entry_names_differ(entries) ==> names_differ(children(entries)),
    decreases entries.len(),
{
    if entries.len() > 0 {
        let front = entries.drop_last();
        let last = entries.last();
        lemma_children_names(front);
        let shown = children(entries);
        assert forall|i: int| 0 <= i < shown.len() implies exists|k: int|
            0 <= k < entries.len() && entries[k].name == (#[trigger] shown[i]).name by {
            if i < children(front).len() {
                let k = choose|k: int|
                    0 <= k < front.len() && front[k].name == children(front)[i].name;
                assert(entries[k].name == shown[i].name);
            } else {
                assert(entries[entries.len() - 1].name == shown[i].name);
            }
        }
        if entry_names_differ(entries) {
            assert(entry_names_differ(front)) by {
                assert forall|i: int, j: int| 0 <= i < j < front.len() implies front[i].name
                    != front[j].name by {
                    assert(front[i] == entries[i] && front[j] == entries[j]);
                }
            }
            assert forall|i: int, j: int| 0 <= i < j < shown.len() implies shown[i].name
                != shown[j].name by {
                if j < children(front).len() {
                    assert(children(front)[i].name != children(front)[j].name);
                } else {
                    let k = choose|k: int|
                        0 <= k < front.len() && front[k].name == children(front)[i].name;
                    assert(entries[k].name != entries[entries.len() - 1].name);
                }
            }
        }
    }
}

/// The members of `children(entries)`, told from those of the entries without the one at `at`.
proof fn lemma_children_without(entries: Seq<EntryProbeView>, at: int)
    requires
        0 <= at < entries.len(),
    ensures
        children(entries).to_multiset() == match listed_entry(entries[at]) {
            Some(file) => children(entries.remove(at)).to_multiset().insert(file),
            None => children(entries.remove(at)).to_multiset(),
        },
    decreases entries.len(),
{
    broadcast use vstd::seq_lib::group_to_multiset_ensures;

    let front = entries.drop_last();
    let last = entries.last();
    if at == entries.len() - 1 {
        assert(entries.remove(at) =~= front);
    } else {
        lemma_children_without(front, at);
        assert(entries.remove(at).drop_last() =~= front.remove(at));
        assert(entries.remove(at).last() == last);
        assert(front[at] == entries[at]);
        let less = children(front.remove(at)).to_multiset();
        match (listed_entry(entries[at]), listed_entry(last)) {
            (Some(file), Some(other)) => {
                assert(less.insert(file).insert(other) =~= less.insert(other).insert(file));
            },
            _ => {},
        }
    }
}

/// Which children are shown is a matter of which entries there are, not of their order.
proof fn lemma_children_by_members(a: Seq<EntryProbeView>, b: Seq<EntryProbeView>)
    requires
        a.to_multiset() == b.to_multiset(),
    ensures
        children(a).to_multiset() == children(b).to_multiset(),
    decreases a.len(),
{
    broadcast use vstd::seq_lib::group_to_multiset_ensures;

    assert(a.len() == b.len()) by {
        assert(a.to_multiset().len() == a.len());
        assert(b.to_multiset().len() == b.len());
    }
    if a.len() == 0 {
        assert(a =~= b);
    } else {
        let front = a.drop_last();
        let last = a.last();
        assert(a =~= front.push(last));
        assert(a.to_multiset().count(last) > 0);
        assert(b.contains(last));
        let at = choose|at: int| 0 <= at < b.len() && b[at] == last;
        let rest = b.remove(at);
        assert(front.to_multiset() =~= rest.to_multiset()) by {
            assert forall|x: EntryProbeView| front.to_multiset().count(x) == rest.to_multiset().count(
                x,
            ) by {
                assert(a.to_multiset().count(x) == front.to_multiset().insert(last).count(x));
                assert(rest.to_multiset().count(x) == b.to_multiset().remove(last).count(x));
            }
        }
        lemma_children_by_members(front, rest);
        lemma_children_without(b, at);
    }
}

/// A listing depends on the directory, not on the order in which its entries were read: for
/// the same entries, no two of one name, the same children are shown in the same order.
pub proof fn lemma_listing_ignores_enumeration_order(
    a: Seq<EntryProbeView>,
    b: Seq<EntryProbeView>,
)
    requires
        a.to_multiset() == b.to_multiset(),
        entry_names_differ(a),
    ensures
        listed(a) == listed(b),
{
    lemma_children_by_members(a, b);
    lemma_children_names(a);
    lemma_sorted_by_name_ignores_order(children(a), children(b));
}

} // verus!
