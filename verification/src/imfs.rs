//! The virtual filesystem: files and directories in memory, found by path.

use vstd::prelude::*;
use crate::text::{
    chars_of,
    comes_before,
    lemma_text_before_irreflexive,
    lemma_text_before_total,
    lemma_text_before_transitive,
    lies_below,
    str_equal,
    text_before,
};

verus! {

/// A file: its path and its bytes.
#[derive(Debug, PartialEq, Eq)]
pub struct ImfsFile {
    pub path: String,
    pub contents: Vec<u8>,
}

/// A directory: its path and the paths of what lies in it. A projection
/// visits them in the order in which they are listed; in a filesystem that
/// is the order of the dictionary.
#[derive(Debug, PartialEq, Eq)]
pub struct ImfsDirectory {
    pub path: String,
    pub children: Vec<String>,
}

/// What the filesystem holds at a path.
#[derive(Debug, PartialEq, Eq)]
pub enum ImfsItem {
    File(ImfsFile),
    Directory(ImfsDirectory),
}

/// What an `ImfsFile` stands for.
pub struct ImfsFileView {
    pub path: Seq<char>,
    pub contents: Seq<u8>,
}

/// What an `ImfsDirectory` stands for.
pub struct ImfsDirectoryView {
    pub path: Seq<char>,
    pub children: Seq<Seq<char>>,
}

/// What an `ImfsItem` stands for.
pub enum ImfsItemView {
    File(ImfsFileView),
    Directory(ImfsDirectoryView),
}

impl View for ImfsFile {
    type V = ImfsFileView;

    open spec fn view(&self) -> ImfsFileView {
        ImfsFileView { path: self.path@, contents: self.contents@ }
    }
}

/// What a list of paths stands for.
pub open spec fn paths_view(paths: Seq<String>) -> Seq<Seq<char>> {
    Seq::new(paths.len(), |i: int| paths[i]@)
}

impl View for ImfsDirectory {
    type V = ImfsDirectoryView;

    open spec fn view(&self) -> ImfsDirectoryView {
        ImfsDirectoryView { path: self.path@, children: paths_view(self.children@) }
    }
}

impl View for ImfsItem {
    type V = ImfsItemView;

    open spec fn view(&self) -> ImfsItemView {
        match self {
            ImfsItem::File(file) => ImfsItemView::File(file@),
            ImfsItem::Directory(directory) => ImfsItemView::Directory(directory@),
        }
    }
}

impl ImfsItemView {
    /// The path at which the item stands.
    pub open spec fn path(self) -> Seq<char> {
        match self {
            ImfsItemView::File(file) => file.path,
            ImfsItemView::Directory(directory) => directory.path,
        }
    }
}

/// Whether each of `paths` comes before the next in the order of the
/// dictionary.
pub open spec fn ascending(paths: Seq<Seq<char>>) -> bool {
    forall|i: int, j: int| 0 <= i < j < paths.len() ==> text_before(paths[i], paths[j])
}

/// `sorted` with `path` put in at its place in the order of the dictionary.
pub open spec fn with_path_in_order(sorted: Seq<Seq<char>>, path: Seq<char>) -> Seq<Seq<char>>
    decreases sorted.len(),
{
    if sorted.len() == 0 {
        seq![path]
    } else if text_before(sorted.last(), path) {
        sorted.push(path)
    } else {
        with_path_in_order(sorted.drop_last(), path).push(sorted.last())
    }
}

/// `paths` in the order of the dictionary.
pub open spec fn in_order(paths: Seq<Seq<char>>) -> Seq<Seq<char>>
    decreases paths.len(),
{
    if paths.len() == 0 {
        Seq::empty()
    } else {
        with_path_in_order(in_order(paths.drop_last()), paths.last())
    }
}

/// Whether every one of `children` lies below `path`.
pub open spec fn all_below(path: Seq<char>, children: Seq<Seq<char>>) -> bool {
    forall|i: int| 0 <= i < children.len() ==> lies_below(path, #[trigger] children[i])
}

impl ImfsDirectoryView {
    /// Every child lies below the directory, and the children stand in the
    /// order of the dictionary, so that none is listed twice.
    pub open spec fn well_formed(self) -> bool {
        &&& all_below(self.path, self.children)
        &&& ascending(self.children)
    }
}

/// Paths that stand in the order of the dictionary differ from one another.
pub proof fn lemma_ascending_has_no_duplicates(paths: Seq<Seq<char>>)
    requires
        ascending(paths),
    ensures
        paths.no_duplicates(),
{
    assert forall|i: int, j: int| 0 <= i < paths.len() && 0 <= j < paths.len() && i != j implies paths[i]
        != paths[j] by {
        lemma_text_before_irreflexive(paths[i]);
        if i < j {
            assert(text_before(paths[i], paths[j]));
        } else {
            assert(text_before(paths[j], paths[i]));
        }
    }
}

/// Putting a path in at its place adds that path and nothing else.
pub proof fn lemma_with_path_in_order_members(sorted: Seq<Seq<char>>, path: Seq<char>)
    ensures
        with_path_in_order(sorted, path).len() == sorted.len() + 1,
        forall|x: Seq<char>|
            #![trigger with_path_in_order(sorted, path).contains(x)]
            #![trigger sorted.contains(x)]
            with_path_in_order(sorted, path).contains(x) <==> (sorted.contains(x) || x == path),
    decreases sorted.len(),
{
    let result = with_path_in_order(sorted, path);
    if sorted.len() == 0 {
        assert(result[0] == path);
        assert forall|x: Seq<char>| result.contains(x) <==> (sorted.contains(x) || x == path) by {}
    } else if text_before(sorted.last(), path) {
        assert(result[sorted.len() as int] == path);
        assert forall|x: Seq<char>| result.contains(x) <==> (sorted.contains(x) || x == path) by {
            if sorted.contains(x) {
                let i = choose|i: int| 0 <= i < sorted.len() && sorted[i] == x;
                assert(result[i] == x);
            }
        }
    } else {
        let front = sorted.drop_last();
        let inner = with_path_in_order(front, path);
        lemma_with_path_in_order_members(front, path);
        assert forall|x: Seq<char>| result.contains(x) <==> (sorted.contains(x) || x == path) by {
            if result.contains(x) {
                let i = choose|i: int| 0 <= i < result.len() && result[i] == x;
                if i < inner.len() {
                    assert(inner[i] == x);
                    assert(inner.contains(x));
                    if front.contains(x) {
                        let k = choose|k: int| 0 <= k < front.len() && front[k] == x;
                        assert(sorted[k] == x);
                    }
                } else {
                    assert(sorted[sorted.len() - 1] == x);
                }
            }
            if sorted.contains(x) {
                let k = choose|k: int| 0 <= k < sorted.len() && sorted[k] == x;
                if k < front.len() {
                    assert(front[k] == x);
                    assert(front.contains(x));
                    assert(inner.contains(x));
                    let i = choose|i: int| 0 <= i < inner.len() && inner[i] == x;
                    assert(result[i] == x);
                } else {
                    assert(result[inner.len() as int] == x);
                }
            }
            if x == path {
                assert(inner.contains(x));
                let i = choose|i: int| 0 <= i < inner.len() && inner[i] == x;
                assert(result[i] == x);
            }
        }
    }
}

/// Putting a new path in at its place keeps the order.
pub proof fn lemma_with_path_in_order_ascends(sorted: Seq<Seq<char>>, path: Seq<char>)
    requires
        ascending(sorted),
        !sorted.contains(path),
    ensures
        ascending(with_path_in_order(sorted, path)),
    decreases sorted.len(),
{
    let result = with_path_in_order(sorted, path);
    if sorted.len() == 0 {
    } else if text_before(sorted.last(), path) {
        assert forall|i: int, j: int| 0 <= i < j < result.len() implies text_before(
            result[i],
            result[j],
        ) by {
            if j == sorted.len() && i < sorted.len() - 1 {
                lemma_text_before_transitive(sorted[i], sorted.last(), path);
            }
        }
    } else {
        let front = sorted.drop_last();
        let inner = with_path_in_order(front, path);
        assert(ascending(front)) by {
            assert forall|i: int, j: int| 0 <= i < j < front.len() implies text_before(
                front[i],
                front[j],
            ) by {
                assert(front[i] == sorted[i] && front[j] == sorted[j]);
            }
        }
        assert(!front.contains(path)) by {
            if front.contains(path) {
                let k = choose|k: int| 0 <= k < front.len() && front[k] == path;
                assert(sorted[k] == path);
            }
        }
        lemma_with_path_in_order_ascends(front, path);
        lemma_with_path_in_order_members(front, path);
        lemma_text_before_total(path, sorted.last());
        assert(sorted[sorted.len() - 1] == sorted.last());
        assert forall|i: int, j: int| 0 <= i < j < result.len() implies text_before(
            result[i],
            result[j],
        ) by {
            if j == inner.len() {
                assert(inner.contains(inner[i]));
                if inner[i] != path {
                    let k = choose|k: int| 0 <= k < front.len() && front[k] == inner[i];
                    assert(text_before(sorted[k], sorted[sorted.len() - 1]));
                }
            } else {
                assert(result[i] == inner[i] && result[j] == inner[j]);
            }
        }
    }
}

/// Sorting keeps every path, adds none, and puts paths that differ from one
/// another into the order of the dictionary.
pub proof fn lemma_in_order(paths: Seq<Seq<char>>)
    ensures
        in_order(paths).len() == paths.len(),
        forall|x: Seq<char>|
            #![trigger in_order(paths).contains(x)]
            #![trigger paths.contains(x)]
            in_order(paths).contains(x) <==> paths.contains(x),
        paths.no_duplicates() ==> ascending(in_order(paths)),
    decreases paths.len(),
{
    if paths.len() > 0 {
        let front = paths.drop_last();
        let last = paths.last();
        lemma_in_order(front);
        lemma_with_path_in_order_members(in_order(front), last);
        assert forall|x: Seq<char>| in_order(paths).contains(x) <==> paths.contains(x) by {
            if front.contains(x) {
                let k = choose|k: int| 0 <= k < front.len() && front[k] == x;
                assert(paths[k] == x);
            }
            if paths.contains(x) {
                let k = choose|k: int| 0 <= k < paths.len() && paths[k] == x;
                if k < front.len() {
                    assert(front[k] == x);
                }
            }
            if x == last {
                assert(paths[paths.len() - 1] == x);
            }
        }
        if paths.no_duplicates() {
            assert(front.no_duplicates()) by {
                assert forall|i: int, j: int|
                    0 <= i < front.len() && 0 <= j < front.len() && i != j implies front[i]
                    != front[j] by {
                    assert(front[i] == paths[i] && front[j] == paths[j]);
                }
            }
            assert(!front.contains(last)) by {
                if front.contains(last) {
                    let k = choose|k: int| 0 <= k < front.len() && front[k] == last;
                    assert(paths[k] == paths[paths.len() - 1]);
                }
            }
            lemma_with_path_in_order_ascends(in_order(front), last);
        }
    } else {
        assert forall|x: Seq<char>| in_order(paths).contains(x) <==> paths.contains(x) by {}
    }
}

/// Where `at` is the place of `path` among `sorted`: what stands from `at`
/// on does not come before `path`, and what stands just ahead of `at` does.
pub proof fn lemma_place_in_order(sorted: Seq<Seq<char>>, path: Seq<char>, at: int)
    requires
        0 <= at <= sorted.len(),
        forall|k: int| at <= k < sorted.len() ==> !text_before(sorted[k], path),
        at > 0 ==> text_before(sorted[at - 1], path),
    ensures
        with_path_in_order(sorted, path) == sorted.insert(at, path),
    decreases sorted.len(),
{
    if sorted.len() == 0 {
        assert(seq![path] =~= sorted.insert(at, path));
    } else if text_before(sorted.last(), path) {
        assert(sorted[sorted.len() - 1] == sorted.last());
        assert(at == sorted.len());
        assert(sorted.push(path) =~= sorted.insert(at, path));
    } else {
        let front = sorted.drop_last();
        assert(at < sorted.len()) by {
            if at == sorted.len() {
                assert(sorted[at - 1] == sorted.last());
            }
        }
        assert forall|k: int| at <= k < front.len() implies !text_before(front[k], path) by {
            assert(front[k] == sorted[k]);
        }
        if at > 0 {
            assert(front[at - 1] == sorted[at - 1]);
        }
        lemma_place_in_order(front, path, at);
        assert(front.insert(at, path).push(sorted.last()) =~= sorted.insert(at, path));
    }
}

impl ImfsItemView {
    /// A file is always well formed; a directory where its children are.
    pub open spec fn well_formed(self) -> bool {
        match self {
            ImfsItemView::File(_) => true,
            ImfsItemView::Directory(directory) => directory.well_formed(),
        }
    }
}

/// Whether every item of a filesystem is well formed.
pub open spec fn items_well_formed(items: Seq<ImfsItemView>) -> bool {
    forall|i: int| 0 <= i < items.len() ==> (#[trigger] items[i]).well_formed()
}

/// The item at `path`: the one added last, where several stand there.
pub open spec fn lookup(items: Seq<ImfsItemView>, path: Seq<char>) -> Option<ImfsItemView>
    decreases items.len(),
{
    if items.len() == 0 {
        None
    } else if items.last().path() == path {
        Some(items.last())
    } else {
        lookup(items.drop_last(), path)
    }
}

/// The length of the longest path at which an item stands.
pub open spec fn longest_path(items: Seq<ImfsItemView>) -> nat
    decreases items.len(),
{
    if items.len() == 0 {
        0
    } else {
        let rest = longest_path(items.drop_last());
        if items.last().path().len() > rest {
            items.last().path().len()
        } else {
            rest
        }
    }
}

/// What `lookup` finds is an item of the filesystem, and stands at the path
/// that was asked for.
pub proof fn lemma_lookup(items: Seq<ImfsItemView>, path: Seq<char>)
    ensures
        match lookup(items, path) {
            Some(item) => item.path() == path && items.contains(item) && path.len() <= longest_path(
                items,
            ),
            None => forall|i: int| 0 <= i < items.len() ==> (#[trigger] items[i]).path() != path,
        },
    decreases items.len(),
{
    if items.len() > 0 {
        let front = items.drop_last();
        lemma_lookup(front, path);
        if items.last().path() == path {
            assert(items[items.len() - 1] == items.last());
        } else {
            match lookup(front, path) {
                Some(item) => {
                    let i = choose|i: int| 0 <= i < front.len() && front[i] == item;
                    assert(items[i] == item);
                },
                None => {
                    assert forall|i: int| 0 <= i < items.len() implies (#[trigger] items[i]).path()
                        != path by {
                        if i < front.len() {
                            assert(front[i] == items[i]);
                        }
                    }
                },
            }
        }
    }
}

/// The virtual filesystem. It is read by path; what is added later stands
/// before what was added earlier at the same path.
pub struct Imfs {
    items: Vec<ImfsItem>,
}

/// What a list of items stands for.
pub open spec fn items_view(items: Seq<ImfsItem>) -> Seq<ImfsItemView> {
    Seq::new(items.len(), |i: int| items[i]@)
}

impl View for Imfs {
    type V = Seq<ImfsItemView>;

    closed spec fn view(&self) -> Seq<ImfsItemView> {
        items_view(self.items@)
    }
}

/// Whether no path is listed twice in `paths`.
fn all_distinct(paths: &Vec<String>) -> (yes: bool)
    ensures
        yes == paths_view(paths@).no_duplicates(),
{
    let mut j: usize = 0;
    while j < paths.len()
        invariant
            j <= paths.len(),
            forall|a: int, b: int| 0 <= a < b < j ==> paths_view(paths@)[a] != paths_view(paths@)[b],
        decreases paths.len() - j,
    {
        let mut i: usize = 0;
        while i < j
            invariant
                i <= j < paths.len(),
                forall|a: int| 0 <= a < i ==> paths_view(paths@)[a] != paths_view(paths@)[j as int],
            decreases j - i,
        {
            if str_equal(paths[i].as_str(), paths[j].as_str()) {
                assert(paths_view(paths@)[i as int] == paths_view(paths@)[j as int]);
                return false;
            }
            i += 1;
        }
        j += 1;
    }
    true
}

/// Whether `path` lies below `directory`.
pub fn is_below(directory: &str, path: &str) -> (yes: bool)
    ensures
        yes == lies_below(directory@, path@),
{
    let above = chars_of(directory);
    let below = chars_of(path);
    if below.len() <= above.len() || below.len() - above.len() < 2 {
        return false;
    }
    let mut i: usize = 0;
    while i < above.len()
        invariant
            i <= above.len() < below.len(),
            above@ == directory@,
            below@ == path@,
            forall|j: int| 0 <= j < i ==> above@[j] == below@[j],
        decreases above.len() - i,
    {
        if above[i] != below[i] {
            assert(below@.subrange(0, above.len() as int)[i as int] != above@[i as int]);
            return false;
        }
        i += 1;
    }
    assert(below@.subrange(0, above.len() as int) =~= above@);
    below[above.len()] == '/'
}

/// Puts `path` in at its place among `sorted`.
fn put_in_order(sorted: &mut Vec<String>, path: String)
    ensures
        paths_view(final(sorted)@) == with_path_in_order(paths_view(old(sorted)@), path@),
{
    let ghost before = paths_view(sorted@);
    let mut at: usize = sorted.len();
    while at > 0 && !comes_before(sorted[at - 1].as_str(), path.as_str())
        invariant
            at <= sorted.len(),
            before == paths_view(sorted@),
            forall|k: int| at <= k < sorted.len() ==> !text_before(before[k], path@),
        decreases at,
    {
        at -= 1;
    }
    proof {
        lemma_place_in_order(before, path@, at as int);
    }
    sorted.insert(at, path);
    assert(paths_view(sorted@) =~= before.insert(at as int, path@));
}

/// `paths` in the order of the dictionary.
fn sort_paths(paths: &Vec<String>) -> (sorted: Vec<String>)
    ensures
        paths_view(sorted@) == in_order(paths_view(paths@)),
{
    let ghost given = paths_view(paths@);
    let mut sorted: Vec<String> = Vec::new();
    let mut i: usize = 0;
    assert(given.take(0) =~= Seq::empty());
    assert(paths_view(sorted@) =~= Seq::empty());
    while i < paths.len()
        invariant
            i <= paths.len(),
            given == paths_view(paths@),
            paths_view(sorted@) == in_order(given.take(i as int)),
        decreases paths.len() - i,
    {
        proof {
            let upto = given.take(i + 1);
            assert(upto.drop_last() == given.take(i as int));
            assert(upto.last() == paths[i as int]@);
        }
        put_in_order(&mut sorted, paths[i].clone());
        i += 1;
    }
    assert(given.take(i as int) == given);
    sorted
}

impl Imfs {
    #[verifier::type_invariant]
    spec fn every_directory_holds_what_lies_below_it(self) -> bool {
        items_well_formed(items_view(self.items@))
    }

    /// A filesystem that holds nothing.
    pub fn new() -> (imfs: Imfs)
        ensures
            imfs@ == Seq::<ImfsItemView>::empty(),
    {
        let imfs = Imfs { items: Vec::new() };
        assert(imfs@ =~= Seq::<ImfsItemView>::empty());
        imfs
    }

    /// Recalls what holds of every filesystem: each of its items is well
    /// formed.
    pub fn recall_well_formed(&self)
        ensures
            items_well_formed(self@),
    {
        proof {
            use_type_invariant(self);
        }
    }

    /// The number of items that were added.
    pub fn len(&self) -> (n: usize)
        ensures
            n == self@.len(),
    {
        self.items.len()
    }

    /// The item that was added as the `index`-th, counted from zero.
    pub fn item(&self, index: usize) -> (item: Option<&ImfsItem>)
        ensures
            match item {
                Some(found) => index < self@.len() && found@ == self@[index as int],
                None => index >= self@.len(),
            },
    {
        if index < self.items.len() {
            Some(&self.items[index])
        } else {
            None
        }
    }

    /// Puts a file at `path`.
    pub fn add_file(&mut self, path: String, contents: Vec<u8>)
        ensures
            final(self)@ == old(self)@.push(
                ImfsItemView::File(ImfsFileView { path: path@, contents: contents@ }),
            ),
    {
        proof {
            use_type_invariant(&*self);
        }
        let ghost before = self@;
        let ghost added = ImfsItemView::File(ImfsFileView { path: path@, contents: contents@ });
        let mut taken = Imfs::new();
        std::mem::swap(self, &mut taken);
        let mut items = taken.items;
        items.push(ImfsItem::File(ImfsFile { path, contents }));
        assert(items_view(items@) =~= before.push(added));
        *self = Imfs { items };
    }

    /// Puts a directory at `path`, with `children` as the paths of what lies
    /// in it; they are kept in the order of the dictionary, whatever the
    /// order in which they are given. The directory is added where each
    /// child lies below `path` and none is given twice; otherwise the
    /// filesystem stays as it is.
    pub fn add_directory(&mut self, path: String, children: Vec<String>) -> (added: bool)
        ensures
            added == (all_below(path@, paths_view(children@)) && paths_view(children@).no_duplicates()),
            added ==> final(self)@ == old(self)@.push(
                ImfsItemView::Directory(
                    ImfsDirectoryView { path: path@, children: in_order(paths_view(children@)) },
                ),
            ),
            !added ==> final(self)@ == old(self)@,
    {
        proof {
            use_type_invariant(&*self);
        }
        let ghost before = self@;
        let ghost given = paths_view(children@);
        let mut i: usize = 0;
        while i < children.len()
            invariant
                i <= children.len(),
                given == paths_view(children@),
                forall|j: int| 0 <= j < i ==> lies_below(path@, #[trigger] given[j]),
            decreases children.len() - i,
        {
            if !is_below(path.as_str(), children[i].as_str()) {
                assert(!lies_below(path@, given[i as int]));
                return false;
            }
            i += 1;
        }
        if !all_distinct(&children) {
            return false;
        }
        let sorted = sort_paths(&children);
        let ghost directory = ImfsDirectoryView { path: path@, children: in_order(given) };
        proof {
            lemma_in_order(given);
            assert forall|k: int| 0 <= k < directory.children.len() implies lies_below(
                path@,
                #[trigger] directory.children[k],
            ) by {
                assert(directory.children.contains(directory.children[k]));
                let j = choose|j: int| 0 <= j < given.len() && given[j] == directory.children[k];
                assert(lies_below(path@, given[j]));
            }
        }
        let mut taken = Imfs::new();
        std::mem::swap(self, &mut taken);
        let mut items = taken.items;
        items.push(ImfsItem::Directory(ImfsDirectory { path, children: sorted }));
        assert(items_view(items@) =~= before.push(ImfsItemView::Directory(directory)));
        *self = Imfs { items };
        true
    }

    /// The item at `path`, if the filesystem holds one.
    pub fn get(&self, path: &str) -> (found: Option<&ImfsItem>)
        ensures
            match found {
                Some(item) => lookup(self@, path@) == Some(item@),
                None => lookup(self@, path@) is None,
            },
    {
        let mut i: usize = self.items.len();
        assert(self@.take(i as int) == self@);
        while i > 0
            invariant
                i <= self.items.len(),
                lookup(self@, path@) == lookup(self@.take(i as int), path@),
            decreases i,
        {
            proof {
                let front = self@.take(i as int);
                assert(front.drop_last() == self@.take(i - 1));
                assert(front.last() == self.items[i - 1]@);
            }
            i -= 1;
            let at = match &self.items[i] {
                ImfsItem::File(file) => file.path.as_str(),
                ImfsItem::Directory(directory) => directory.path.as_str(),
            };
            if str_equal(at, path) {
                return Some(&self.items[i]);
            }
        }
        assert(self@.take(0).len() == 0);
        None
    }
}

} // verus!
