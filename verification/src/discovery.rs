//! Discovery of subagent definitions: the search roots, the documents of one
//! directory, and the merge across roots.
use crate::definition::{SubAgentDefinition, SubAgentDefinitionView};
use crate::frontmatter::{frontmatter_of, parse_frontmatter, parsed};
use crate::sorting::{
    ascending, definition_views, first_with_name, has_name, lemma_first_with_name,
    lemma_first_with_name_concat, lemma_inserted_place, lemma_sorted_by_name_ascending,
    lemma_sorted_by_name_keeps_first, lemma_sorted_by_name_named, named, sort_by_name,
    sorted_by_name,
};
use crate::text::{chars_of, lowercase_is, lowercased, text_of};
use vstd::prelude::*;
use vstd::utf8::{decode_utf8, valid_utf8};

verus! {

/// Directory, under a project root, that holds the project's configuration.
pub const CONFIG_DIR: &'static str = ".codex";

/// Directory, under a configuration root, that holds subagent documents.
pub const SUBAGENTS_DIR: &'static str = "subagents";

/// The path that std's `Path::join` gives for `base` extended by `part`,
/// both as text.
pub uninterp spec fn joined_path(base: Seq<char>, part: Seq<char>) -> Seq<char>;

/// Extends a path with std's `Path::join` and hands the result back as
/// text. The contract claims that the result is the join of the two texts;
/// which separator stands between them, and what becomes of `base` under an
/// absolute `part`, is std's and is not stated here.
#[verifier::external_body]
fn join_path(base: &str, part: &str) -> (joined: String)
    ensures
        joined@ == joined_path(base@, part@),
{
    std::path::Path::new(base).join(part).to_string_lossy().into_owned()
}

/// The subagents directory under a home location, where one is known.
pub open spec fn home_subagents_dir(codex_home: Option<Seq<char>>) -> Option<Seq<char>> {
    match codex_home {
        Some(home) => Some(joined_path(home, SUBAGENTS_DIR@)),
        None => None,
    }
}

/// The subagents directory under a project root, where one is known.
pub open spec fn project_subagents_dir(project_root: Option<Seq<char>>) -> Option<Seq<char>> {
    match project_root {
        Some(root) => Some(joined_path(joined_path(root, CONFIG_DIR@), SUBAGENTS_DIR@)),
        None => None,
    }
}

/// The search roots, highest priority first: the project's directory, then
/// the home directory, each where it is known.
pub open spec fn search_roots(
    project_root: Option<Seq<char>>,
    codex_home: Option<Seq<char>>,
) -> Seq<Seq<char>> {
    let project = match project_subagents_dir(project_root) {
        Some(dir) => seq![dir],
        None => Seq::empty(),
    };
    let home = match home_subagents_dir(codex_home) {
        Some(dir) => seq![dir],
        None => Seq::empty(),
    };
    project + home
}

/// The default subagents directory: `subagents` under the home location.
/// `None` where the home location is not known.
pub fn default_subagents_dir(codex_home: Option<&str>) -> (dir: Option<String>)
    ensures
        dir.deep_view() == home_subagents_dir(codex_home.deep_view()),
{
    match codex_home {
        Some(home) => Some(join_path(home, SUBAGENTS_DIR)),
        None => None,
    }
}

/// The directories to search, highest priority first: `.codex/subagents`
/// under the project root, where one was resolved, then the default
/// subagents directory, where the home location is known.
pub fn subagent_search_roots(project_root: Option<&str>, codex_home: Option<&str>) -> (roots: Vec<
    String,
>)
    ensures
        roots.deep_view() == search_roots(project_root.deep_view(), codex_home.deep_view()),
{
    let mut roots: Vec<String> = Vec::new();
    if let Some(root) = project_root {
        let config = join_path(root, CONFIG_DIR);
        roots.push(join_path(config.as_str(), SUBAGENTS_DIR));
    }
    if let Some(home_subagents) = default_subagents_dir(codex_home) {
        roots.push(home_subagents);
    }
    assert(roots.deep_view() =~= search_roots(project_root.deep_view(), codex_home.deep_view()));
    roots
}

/// One entry of a directory, as its listing gave it.
#[derive(Debug)]
pub struct DirectoryEntry {
    /// Final component of the entry's path.
    pub file_name: String,
    /// Whether the entry is a regular file.
    pub is_file: bool,
    /// The bytes of the file; `None` where it could not be read.
    pub content: Option<Vec<u8>>,
}

/// Mathematical content of a [`DirectoryEntry`].
pub struct DirectoryEntryView {
    pub file_name: Seq<char>,
    pub is_file: bool,
    pub content: Option<Seq<u8>>,
}

impl View for DirectoryEntry {
    type V = DirectoryEntryView;

    open spec fn view(&self) -> DirectoryEntryView {
        DirectoryEntryView {
            file_name: self.file_name@,
            is_file: self.is_file,
            content: match self.content {
                Some(bytes) => Some(bytes@),
                None => None,
            },
        }
    }
}

/// A directory and its entries, in the order of the listing. A directory
/// that is missing or cannot be opened has no entries.
#[derive(Debug)]
pub struct DirectoryListing {
    pub dir: String,
    pub entries: Vec<DirectoryEntry>,
}

/// Mathematical content of a [`DirectoryListing`].
pub struct DirectoryListingView {
    pub dir: Seq<char>,
    pub entries: Seq<DirectoryEntryView>,
}

/// The entries of a listing, each by its view.
pub open spec fn entry_views(entries: Seq<DirectoryEntry>) -> Seq<DirectoryEntryView> {
    Seq::new(entries.len(), |i: int| entries[i]@)
}

impl View for DirectoryListing {
    type V = DirectoryListingView;

    open spec fn view(&self) -> DirectoryListingView {
        DirectoryListingView { dir: self.dir@, entries: entry_views(self.entries@) }
    }
}

/// The name that a file name gives its subagent: what precedes the final
/// dot, where the extension is `md` in any letter case and the name is not
/// empty. `None` for any other file name.
pub open spec fn document_name(file_name: Seq<char>) -> Option<Seq<char>> {
    let n = file_name.len();
    if n > 3 && lowercased(file_name.skip(n - 3)) == ".md"@ {
        Some(file_name.take(n - 3))
    } else {
        None
    }
}

/// The definition that an entry of the directory `dir` yields: the entry is
/// a regular file, its file name gives a name, and its content was read and
/// is valid UTF-8.
pub open spec fn definition_of(dir: Seq<char>, entry: DirectoryEntryView) -> Option<
    SubAgentDefinitionView,
> {
    if !entry.is_file {
        None
    } else {
        match (document_name(entry.file_name), entry.content) {
            (Some(name), Some(bytes)) => if valid_utf8(bytes) {
                let document = parsed(decode_utf8(bytes));
                Some(
                    SubAgentDefinitionView {
                        name,
                        path: joined_path(dir, entry.file_name),
                        system_prompt: document.body,
                        description: document.metadata.description,
                        tools_allowed: document.metadata.tools_allowed,
                        tools_blocked: document.metadata.tools_blocked,
                        mode: document.metadata.mode,
                    },
                )
            } else {
                None
            },
            _ => None,
        }
    }
}

/// The definitions that the entries of `dir` yield, in the order of the
/// listing.
pub open spec fn loaded(dir: Seq<char>, entries: Seq<DirectoryEntryView>) -> Seq<
    SubAgentDefinitionView,
>
    decreases entries.len(),
{
    if entries.len() == 0 {
        Seq::empty()
    } else {
        let init = loaded(dir, entries.drop_last());
        match definition_of(dir, entries.last()) {
            Some(definition) => init.push(definition),
            None => init,
        }
    }
}

/// The definitions of one directory, sorted by name.
pub open spec fn discovered_in(listing: DirectoryListingView) -> Seq<SubAgentDefinitionView> {
    sorted_by_name(loaded(listing.dir, listing.entries))
}

/// `list` without the definitions whose name an earlier one bears.
pub open spec fn first_of_each_name(list: Seq<SubAgentDefinitionView>) -> Seq<
    SubAgentDefinitionView,
>
    decreases list.len(),
{
    if list.len() == 0 {
        Seq::empty()
    } else {
        let init = first_of_each_name(list.drop_last());
        if has_name(init, list.last().name) {
            init
        } else {
            init.push(list.last())
        }
    }
}

/// The definitions of every directory, one directory after the other.
pub open spec fn candidates(listings: Seq<DirectoryListingView>) -> Seq<SubAgentDefinitionView>
    decreases listings.len(),
{
    if listings.len() == 0 {
        Seq::empty()
    } else {
        candidates(listings.drop_last()) + discovered_in(listings.last())
    }
}

/// The definitions across the directories, highest priority first: of each
/// name the first one found, sorted by name.
pub open spec fn discovered(listings: Seq<DirectoryListingView>) -> Seq<SubAgentDefinitionView> {
    sorted_by_name(first_of_each_name(candidates(listings)))
}

/// The listings of a list, each by its view.
pub open spec fn listing_views(listings: Seq<DirectoryListing>) -> Seq<DirectoryListingView> {
    Seq::new(listings.len(), |i: int| listings[i]@)
}

/// Whether no two definitions of `list` bear the same name.
pub open spec fn distinct_names(list: Seq<SubAgentDefinitionView>) -> bool {
    forall|i: int, j: int| 0 <= i < j < list.len() ==> list[i].name != list[j].name
}

/// A file name gives a name exactly where it is a name that is not empty,
/// a dot, and an extension that reads `md` in lower case; the dot is the
/// last of the file name.
pub proof fn lemma_document_name(file_name: Seq<char>)
    ensures
        match document_name(file_name) {
            Some(name) => {
                let extension = file_name.skip(name.len() as int + 1);
                &&& name.len() > 0
                &&& file_name == name + seq!['.'] + extension
                &&& lowercased(extension) == "md"@
                &&& !extension.contains('.')
            },
            None => forall|name: Seq<char>, extension: Seq<char>|
                name.len() > 0 && lowercased(extension) == "md"@ ==> file_name != name + seq!['.']
                    + extension,
        },
{
    reveal_strlit(".md");
    reveal_strlit("md");
    let n = file_name.len() as int;
    match document_name(file_name) {
        Some(name) => {
            let suffix = file_name.skip(n - 3);
            let extension = file_name.skip(n - 2);
            assert(lowercased(suffix)[0] == '.' && suffix[0] == file_name[n - 3]);
            assert(lowercased(suffix)[1] == 'm' && lowercased(suffix)[2] == 'd');
            assert(lowercased(extension) =~= "md"@) by {
                assert(extension[0] == suffix[1] && extension[1] == suffix[2]);
            }
            assert(file_name =~= name + seq!['.'] + extension);
            assert(!extension.contains('.')) by {
                if extension.contains('.') {
                    let i = choose|i: int| 0 <= i < extension.len() && extension[i] == '.';
                    assert(lowercased(extension)[i] == '.');
                }
            }
        },
        None => {
            assert forall|name: Seq<char>, extension: Seq<char>|
                name.len() > 0 && lowercased(extension) == "md"@ implies file_name != name
                + seq!['.'] + extension by {
                let joined = name + seq!['.'] + extension;
                if file_name == joined {
                    assert(lowercased(extension).len() == extension.len());
                    assert("md"@.len() == 2);
                    assert(extension.len() == 2);
                    let suffix = joined.skip(joined.len() - 3);
                    assert(suffix[0] == '.');
                    assert(suffix[1] == extension[0] && suffix[2] == extension[1]);
                    assert(lowercased(extension)[0] == 'm' && lowercased(extension)[1] == 'd');
                    assert(lowercased(suffix) =~= ".md"@);
                }
            }
        },
    }
}

/// A definition that an entry yields is named by the entry's file name
/// without its last three characters, and the name is not empty.
pub proof fn lemma_definition_name(dir: Seq<char>, entry: DirectoryEntryView)
    ensures
        definition_of(dir, entry) matches Some(definition) ==> definition.name.len() > 0
            && definition.name == entry.file_name.take(entry.file_name.len() - 3),
{
}

/// In a list of distinct names, each definition is the first bearer of its
/// name.
pub proof fn lemma_distinct_names_first(list: Seq<SubAgentDefinitionView>, i: int)
    requires
        distinct_names(list),
        0 <= i < list.len(),
    ensures
        first_with_name(list, list[i].name) == Some(list[i]),
    decreases list.len(),
{
    let init = list.drop_last();
    if i < list.len() - 1 {
        assert(distinct_names(init)) by {
            assert forall|a: int, b: int| 0 <= a < b < init.len() implies init[a].name
                != init[b].name by {
                assert(init[a] == list[a] && init[b] == list[b]);
            }
        }
        assert(init[i] == list[i]);
        lemma_distinct_names_first(init, i);
    } else {
        lemma_first_with_name(init, list[i].name);
        if has_name(init, list[i].name) {
            let a = choose|a: int| 0 <= a < init.len() && init[a].name == list[i].name;
            assert(init[a] == list[a]);
        }
    }
}

/// Keeping the first of each name leaves distinct names, and the first
/// bearer of every name.
pub proof fn lemma_first_of_each_name(list: Seq<SubAgentDefinitionView>, name: Seq<char>)
    ensures
        distinct_names(first_of_each_name(list)),
        first_with_name(first_of_each_name(list), name) == first_with_name(list, name),
    decreases list.len(),
{
    if list.len() > 0 {
        let init = list.drop_last();
        let kept = first_of_each_name(init);
        lemma_first_of_each_name(init, name);
        lemma_first_of_each_name(init, list.last().name);
        lemma_first_with_name(kept, list.last().name);
        lemma_first_with_name(init, list.last().name);
        lemma_first_with_name(kept, name);
        if !has_name(kept, list.last().name) {
            let grown = kept.push(list.last());
            assert(grown.drop_last() =~= kept);
            assert(grown.last() == list.last());
            assert forall|i: int, j: int| 0 <= i < j < grown.len() implies grown[i].name
                != grown[j].name by {
                if j < kept.len() {
                    assert(grown[i] == kept[i] && grown[j] == kept[j]);
                } else {
                    assert(grown[i] == kept[i]);
                }
            }
        }
    }
}

/// Sorting by name leaves distinct names distinct.
pub proof fn lemma_sorted_by_name_distinct(list: Seq<SubAgentDefinitionView>)
    requires
        distinct_names(list),
    ensures
        distinct_names(sorted_by_name(list)),
    decreases list.len(),
{
    if list.len() > 0 {
        let init = list.drop_last();
        let last = list.last();
        assert(distinct_names(init)) by {
            assert forall|a: int, b: int| 0 <= a < b < init.len() implies init[a].name
                != init[b].name by {
                assert(init[a] == list[a] && init[b] == list[b]);
            }
        }
        lemma_sorted_by_name_distinct(init);
        let sorted = sorted_by_name(init);
        lemma_sorted_by_name_keeps_first(init, last.name);
        lemma_first_with_name(sorted, last.name);
        lemma_first_with_name(init, last.name);
        if has_name(init, last.name) {
            let a = choose|a: int| 0 <= a < init.len() && init[a].name == last.name;
            assert(list[a].name == list[list.len() - 1].name);
        }
        let k = lemma_inserted_place(sorted, last);
        let result = sorted.insert(k, last);
        assert forall|i: int, j: int| 0 <= i < j < result.len() implies result[i].name
            != result[j].name by {
            let from_i = if i < k { i } else { i - 1 };
            let from_j = if j < k { j } else { j - 1 };
            if i == k {
                assert(result[j] == sorted[from_j]);
            } else if j == k {
                assert(result[i] == sorted[from_i]);
            } else {
                assert(result[i] == sorted[from_i] && result[j] == sorted[from_j]);
            }
        }
    }
}

/// Among the definitions of all directories, the first bearer of a name is
/// that of the first directory that has the name.
pub proof fn lemma_candidates_first(listings: Seq<DirectoryListingView>, name: Seq<char>, k: int)
    requires
        0 <= k < listings.len(),
        has_name(discovered_in(listings[k]), name),
        forall|m: int| 0 <= m < k ==> !has_name(discovered_in(#[trigger] listings[m]), name),
    ensures
        first_with_name(candidates(listings), name) == first_with_name(
            discovered_in(listings[k]),
            name,
        ),
    decreases listings.len(),
{
    let init = listings.drop_last();
    lemma_first_with_name_concat(candidates(init), discovered_in(listings.last()), name);
    if k < listings.len() - 1 {
        assert(init[k] == listings[k]);
        assert forall|m: int| 0 <= m < k implies !has_name(
            discovered_in(#[trigger] init[m]),
            name,
        ) by {
            assert(init[m] == listings[m]);
        }
        lemma_candidates_first(init, name, k);
        lemma_first_with_name(discovered_in(listings[k]), name);
    } else {
        assert forall|m: int| 0 <= m < init.len() implies !has_name(
            discovered_in(#[trigger] init[m]),
            name,
        ) by {
            assert(init[m] == listings[m]);
        }
        lemma_candidates_without(init, name);
        lemma_first_with_name(candidates(init), name);
    }
}

/// A name that no directory has is borne by no definition of them all.
pub proof fn lemma_candidates_without(listings: Seq<DirectoryListingView>, name: Seq<char>)
    requires
        forall|m: int|
            0 <= m < listings.len() ==> !has_name(discovered_in(#[trigger] listings[m]), name),
    ensures
        !has_name(candidates(listings), name),
    decreases listings.len(),
{
    if listings.len() > 0 {
        let init = listings.drop_last();
        assert forall|m: int| 0 <= m < init.len() implies !has_name(
            discovered_in(#[trigger] init[m]),
            name,
        ) by {
            assert(init[m] == listings[m]);
        }
        lemma_candidates_without(init, name);
        lemma_first_with_name_concat(candidates(init), discovered_in(listings.last()), name);
        lemma_first_with_name(candidates(init), name);
        lemma_first_with_name(discovered_in(listings.last()), name);
        lemma_first_with_name(candidates(listings), name);
        assert(listings.last() == listings[listings.len() - 1]);
    } else {
        lemma_first_with_name(candidates(listings), name);
    }
}

/// Every definition loaded from a directory bears a name that is not empty.
pub proof fn lemma_loaded_named(dir: Seq<char>, entries: Seq<DirectoryEntryView>)
    ensures
        named(loaded(dir, entries)),
    decreases entries.len(),
{
    if entries.len() > 0 {
        let init = loaded(dir, entries.drop_last());
        lemma_loaded_named(dir, entries.drop_last());
        lemma_definition_name(dir, entries.last());
        if let Some(definition) = definition_of(dir, entries.last()) {
            let grown = init.push(definition);
            assert forall|i: int| 0 <= i < grown.len() implies (#[trigger] grown[i]).name.len()
                > 0 by {
                if i < init.len() {
                    assert(grown[i] == init[i]);
                }
            }
        }
    }
}

/// Every definition among those of all directories bears a name that is
/// not empty.
pub proof fn lemma_candidates_named(listings: Seq<DirectoryListingView>)
    ensures
        named(candidates(listings)),
    decreases listings.len(),
{
    if listings.len() > 0 {
        let front = candidates(listings.drop_last());
        let back = discovered_in(listings.last());
        lemma_candidates_named(listings.drop_last());
        lemma_loaded_named(listings.last().dir, listings.last().entries);
        lemma_sorted_by_name_named(loaded(listings.last().dir, listings.last().entries));
        let all = front + back;
        assert forall|i: int| 0 <= i < all.len() implies (#[trigger] all[i]).name.len() > 0 by {
            if i < front.len() {
                assert(all[i] == front[i]);
            } else {
                assert(all[i] == back[i - front.len()]);
            }
        }
    }
}

/// Keeping the first of each name leaves no name empty where none was.
pub proof fn lemma_first_of_each_name_named(list: Seq<SubAgentDefinitionView>)
    requires
        named(list),
    ensures
        named(first_of_each_name(list)),
    decreases list.len(),
{
    if list.len() > 0 {
        let init = list.drop_last();
        assert(named(init)) by {
            assert forall|i: int| 0 <= i < init.len() implies (#[trigger] init[i]).name.len()
                > 0 by {
                assert(init[i] == list[i]);
            }
        }
        lemma_first_of_each_name_named(init);
        let kept = first_of_each_name(init);
        assert(list.last() == list[list.len() - 1]);
        let grown = kept.push(list.last());
        assert forall|i: int| 0 <= i < grown.len() implies (#[trigger] grown[i]).name.len()
            > 0 by {
            if i < kept.len() {
                assert(grown[i] == kept[i]);
            }
        }
    }
}

/// The definitions of one directory come sorted by name, and of each name
/// the first in the listing comes first.
pub proof fn lemma_discovered_in(listing: DirectoryListingView, name: Seq<char>)
    ensures
        ascending(discovered_in(listing)),
        first_with_name(discovered_in(listing), name) == first_with_name(
            loaded(listing.dir, listing.entries),
            name,
        ),
{
    lemma_sorted_by_name_ascending(loaded(listing.dir, listing.entries));
    lemma_sorted_by_name_keeps_first(loaded(listing.dir, listing.entries), name);
}

/// The definitions across directories come sorted by name; no name is
/// empty and no two definitions bear the same name.
pub proof fn lemma_discovered_sorted_and_distinct(listings: Seq<DirectoryListingView>)
    ensures
        ascending(discovered(listings)),
        distinct_names(discovered(listings)),
        named(discovered(listings)),
{
    let kept = first_of_each_name(candidates(listings));
    lemma_first_of_each_name(candidates(listings), Seq::empty());
    lemma_sorted_by_name_ascending(kept);
    lemma_sorted_by_name_distinct(kept);
    lemma_candidates_named(listings);
    lemma_first_of_each_name_named(candidates(listings));
    lemma_sorted_by_name_named(kept);
}

/// The directory of highest priority that has a name decides its
/// definition: where directory `k` has the name and none before it has, the
/// definition discovered under that name is the one discovered in
/// directory `k`, and it is the only one of that name.
pub proof fn lemma_highest_priority_wins(
    listings: Seq<DirectoryListingView>,
    name: Seq<char>,
    k: int,
)
    requires
        0 <= k < listings.len(),
        has_name(discovered_in(listings[k]), name),
        forall|m: int| 0 <= m < k ==> !has_name(discovered_in(#[trigger] listings[m]), name),
    ensures
        first_with_name(discovered(listings), name) == first_with_name(
            discovered_in(listings[k]),
            name,
        ),
        first_with_name(discovered(listings), name) is Some,
        forall|i: int, j: int|
            0 <= i < discovered(listings).len() && 0 <= j < discovered(listings).len()
                && discovered(listings)[i].name == name && discovered(listings)[j].name == name
                ==> i == j,
{
    let all = candidates(listings);
    lemma_first_of_each_name(all, name);
    lemma_sorted_by_name_keeps_first(first_of_each_name(all), name);
    lemma_candidates_first(listings, name, k);
    lemma_first_with_name(discovered_in(listings[k]), name);
    lemma_discovered_sorted_and_distinct(listings);
}

/// Every definition discovered is, among the definitions of all
/// directories, the first that bears its name.
pub proof fn lemma_discovered_is_first_candidate(listings: Seq<DirectoryListingView>, i: int)
    requires
        0 <= i < discovered(listings).len(),
    ensures
        first_with_name(candidates(listings), discovered(listings)[i].name) == Some(
            discovered(listings)[i],
        ),
{
    let name = discovered(listings)[i].name;
    lemma_discovered_sorted_and_distinct(listings);
    lemma_distinct_names_first(discovered(listings), i);
    lemma_first_of_each_name(candidates(listings), name);
    lemma_sorted_by_name_keeps_first(first_of_each_name(candidates(listings)), name);
}

/// A name that no directory has is not discovered.
pub proof fn lemma_unknown_name_is_not_discovered(
    listings: Seq<DirectoryListingView>,
    name: Seq<char>,
)
    requires
        forall|m: int|
            0 <= m < listings.len() ==> !has_name(discovered_in(#[trigger] listings[m]), name),
    ensures
        !has_name(discovered(listings), name),
{
    let all = candidates(listings);
    lemma_candidates_without(listings, name);
    lemma_first_with_name(all, name);
    lemma_first_of_each_name(all, name);
    lemma_sorted_by_name_keeps_first(first_of_each_name(all), name);
    lemma_first_with_name(discovered(listings), name);
}

/// Decodes bytes with std's `str::from_utf8`: a text comes back exactly
/// where the bytes are valid UTF-8, and it holds the characters that they
/// encode.
#[verifier::external_body]
fn decode_text(bytes: &[u8]) -> (text: Option<String>)
    ensures
        text is Some <==> valid_utf8(bytes@),
        text matches Some(t) ==> t@ == decode_utf8(bytes@),
{
    match std::str::from_utf8(bytes) {
        Ok(text) => Some(text.to_owned()),
        Err(_) => None,
    }
}

/// The subagent name that a file name gives: the file name without its
/// extension, where the extension is `md` in any letter case and a name is
/// left. `None` for any other file name.
pub fn subagent_name(file_name: &str) -> (name: Option<String>)
    ensures
        name.deep_view() == document_name(file_name@),
{
    let chars = chars_of(file_name);
    let n = chars.len();
    if n > 3 && lowercase_is(&chars.as_slice()[n - 3..n], ".md") {
        Some(text_of(&chars.as_slice()[0..n - 3]))
    } else {
        None
    }
}

/// Loads the definition that one entry of the directory `dir` yields, if
/// any: entries that are no regular file, whose file name gives no name,
/// whose content could not be read or is not valid UTF-8 yield none.
pub fn load_definition(dir: &str, entry: &DirectoryEntry) -> (definition: Option<
    SubAgentDefinition,
>)
    ensures
        match definition {
            Some(d) => definition_of(dir@, entry@) == Some(d@),
            None => definition_of(dir@, entry@) is None,
        },
{
    if !entry.is_file {
        return None;
    }
    let name = match subagent_name(entry.file_name.as_str()) {
        Some(name) => name,
        None => {
            return None;
        },
    };
    let content = match &entry.content {
        Some(bytes) => match decode_text(bytes.as_slice()) {
            Some(text) => text,
            None => {
                return None;
            },
        },
        None => {
            return None;
        },
    };
    let path = join_path(dir, entry.file_name.as_str());
    let (description, tools_allowed, tools_blocked, mode, body) = parse_frontmatter(
        content.as_str(),
    );
    Some(
        SubAgentDefinition {
            name,
            path,
            system_prompt: body,
            description,
            tools_allowed,
            tools_blocked,
            mode,
        },
    )
}

/// Discovers the subagents of one directory. Every regular file whose
/// extension is `md`, in any letter case, and whose content is valid UTF-8
/// yields one definition, named by the file name without its extension; the
/// other entries are skipped. The definitions come back sorted by name.
pub fn discover_subagents_in(listing: &DirectoryListing) -> (found: Vec<SubAgentDefinition>)
    ensures
        definition_views(found@) == discovered_in(listing@),
        ascending(definition_views(found@)),
        named(definition_views(found@)),
{
    let mut out: Vec<SubAgentDefinition> = Vec::new();
    let mut i: usize = 0;
    assert(definition_views(out@) =~= loaded(listing@.dir, listing@.entries.take(0)));
    while i < listing.entries.len()
        invariant
            i <= listing.entries.len(),
            definition_views(out@) == loaded(listing@.dir, listing@.entries.take(i as int)),
        decreases listing.entries.len() - i,
    {
        let ghost before = definition_views(out@);
        assert(listing@.entries.take(i + 1).drop_last() =~= listing@.entries.take(i as int));
        if let Some(definition) = load_definition(listing.dir.as_str(), &listing.entries[i]) {
            out.push(definition);
            assert(definition_views(out@) =~= before.push(definition@));
        }
        i += 1;
    }
    assert(listing@.entries.take(i as int) =~= listing@.entries);
    proof {
        lemma_loaded_named(listing@.dir, listing@.entries);
        lemma_sorted_by_name_named(loaded(listing@.dir, listing@.entries));
    }
    sort_by_name(out)
}

/// Whether a definition of `list` bears `name`.
fn contains_name(list: &Vec<SubAgentDefinition>, name: &String) -> (found: bool)
    ensures
        found == has_name(definition_views(list@), name@),
{
    let mut i: usize = 0;
    while i < list.len()
        invariant
            i <= list.len(),
            forall|j: int| 0 <= j < i ==> list[j].name@ != name@,
        decreases list.len() - i,
    {
        if list[i].name == *name {
            assert(definition_views(list@)[i as int].name == name@);
            return true;
        }
        i += 1;
    }
    false
}

/// Discovers the subagents across directories given in priority order,
/// highest first. Of the definitions that share a name, the one from the
/// directory of highest priority is kept; the result is sorted by name.
pub fn discover_subagents(listings: &Vec<DirectoryListing>) -> (found: Vec<SubAgentDefinition>)
    ensures
        definition_views(found@) == discovered(listing_views(listings@)),
        ascending(definition_views(found@)),
        distinct_names(definition_views(found@)),
        named(definition_views(found@)),
{
    let ghost roots = listing_views(listings@);
    let mut subagents: Vec<SubAgentDefinition> = Vec::new();
    let mut i: usize = 0;
    assert(definition_views(subagents@) =~= first_of_each_name(candidates(roots.take(0))));
    while i < listings.len()
        invariant
            i <= listings.len(),
            roots == listing_views(listings@),
            definition_views(subagents@) == first_of_each_name(candidates(roots.take(i as int))),
        decreases listings.len() - i,
    {
        let in_root = discover_subagents_in(&listings[i]);
        let ghost earlier = candidates(roots.take(i as int));
        let ghost here = definition_views(in_root@);
        assert(roots.take(i + 1).drop_last() =~= roots.take(i as int));
        assert(roots.take(i + 1).last() == listings[i as int]@);
        assert(earlier + here.take(0) =~= earlier);
        for subagent in it: in_root
            invariant
                here == definition_views(it.seq()),
                definition_views(subagents@) == first_of_each_name(
                    earlier + here.take(it.index()),
                ),
        {
            let ghost kept = definition_views(subagents@);
            assert((earlier + here.take(it.index() + 1)).drop_last() =~= earlier + here.take(
                it.index(),
            ));
            if !contains_name(&subagents, &subagent.name) {
                subagents.push(subagent);
                assert(definition_views(subagents@) =~= kept.push(subagent@));
            }
        }
        assert(here.take(here.len() as int) =~= here);
        i += 1;
    }
    assert(roots.take(i as int) =~= roots);
    proof {
        lemma_discovered_sorted_and_distinct(roots);
    }
    sort_by_name(subagents)
}

} // verus!
