//! Source and object paths as stable identities.
//!
//! A raw path taken from a trace is classified against the project root so
//! that the same symbol gets the same identity on every machine.

use vstd::prelude::*;
use crate::text::{
    append_chars, chars_of, compare_text, copy_of, join, joined, lemma_order_range,
    lemma_order_reversed, lemma_order_zero, same_string, same_text, slice_of, split, split_on,
    string_of, text_order, views,
};

verus! {

/// Where a cost was measured.
#[derive(Debug, Hash, PartialEq, Eq)]
pub enum SourcePath {
    /// The profiler could not tell the location.
    Unknown,
    /// A file of the language toolchain; the build identifier is shortened.
    Rust(String),
    /// A path below the project root, or any other relative path.
    Relative(String),
    /// Any other absolute path.
    Absolute(String),
}

/// A source path with its text as a sequence of characters.
pub enum PathModel {
    Unknown,
    Rust(Seq<char>),
    Relative(Seq<char>),
    Absolute(Seq<char>),
}

impl View for SourcePath {
    type V = PathModel;

    open spec fn view(&self) -> PathModel {
        match self {
            SourcePath::Unknown => PathModel::Unknown,
            SourcePath::Rust(p) => PathModel::Rust(p@),
            SourcePath::Relative(p) => PathModel::Relative(p@),
            SourcePath::Absolute(p) => PathModel::Absolute(p@),
        }
    }
}

/// The marker that the profiler writes for a location it could not resolve.
pub open spec fn unknown_marker() -> Seq<char> {
    seq!['?', '?', '?']
}

/// The first segment of every toolchain path.
pub open spec fn toolchain_segment() -> Seq<char> {
    seq!['r', 'u', 's', 't', 'c']
}

/// How many characters of the build identifier are kept.
pub const BUILD_ID_LEN: usize = 8;

/// A piece between separators that names something: not empty and not `.`.
pub open spec fn significant(piece: Seq<char>) -> bool {
    piece.len() > 0 && piece != seq!['.']
}

/// The significant pieces, in order.
pub open spec fn keep_significant(pieces: Seq<Seq<char>>) -> Seq<Seq<char>>
    decreases pieces.len(),
{
    if pieces.len() == 0 {
        Seq::empty()
    } else if significant(pieces.last()) {
        keep_significant(pieces.drop_last()).push(pieces.last())
    } else {
        keep_significant(pieces.drop_last())
    }
}

/// The components of a path: its significant pieces between `/`.
pub open spec fn components(path: Seq<char>) -> Seq<Seq<char>> {
    keep_significant(split(path, '/'))
}

/// Whether the path starts at the file system root.
pub open spec fn is_absolute(path: Seq<char>) -> bool {
    path.len() > 0 && path[0] == '/'
}

/// Whether `a` is an initial part of `b`.
pub open spec fn is_prefix(a: Seq<Seq<char>>, b: Seq<Seq<char>>) -> bool {
    a.len() <= b.len() && b.take(a.len() as int) == a
}

/// Whether `path` is the project root or lies below it: both start at the
/// file system root or both do not, and the components of the root are the
/// first components of the path. So an absolute path is never below a
/// relative root, not even below the empty one.
pub open spec fn under_root(root: Seq<char>, path: Seq<char>) -> bool {
    is_absolute(root) == is_absolute(path) && is_prefix(components(root), components(path))
}

/// The components of `path` beyond those of the root.
pub open spec fn beyond_root(root: Seq<char>, path: Seq<char>) -> Seq<Seq<char>> {
    components(path).skip(components(root).len() as int)
}

/// The first `BUILD_ID_LEN` characters of a build identifier.
pub open spec fn short_id(id: Seq<char>) -> Seq<char> {
    if id.len() > BUILD_ID_LEN {
        id.take(BUILD_ID_LEN as int)
    } else {
        id
    }
}

/// The components of a toolchain path with the build identifier shortened.
pub open spec fn with_short_id(comps: Seq<Seq<char>>) -> Seq<Seq<char>> {
    if comps.len() > 1 {
        comps.update(1, short_id(comps[1]))
    } else {
        comps
    }
}

/// Whether an absolute path belongs to the toolchain's own sources.
pub open spec fn is_toolchain(path: Seq<char>) -> bool {
    is_absolute(path) && components(path).len() > 0 && components(path)[0] == toolchain_segment()
}

/// The absolute path with the given components.
pub open spec fn rooted(comps: Seq<Seq<char>>) -> Seq<char> {
    seq!['/'] + joined(comps, '/')
}

/// The identity that a raw path gets under the given project root.
pub open spec fn normalized(root: Seq<char>, source: Seq<char>) -> PathModel {
    if source == unknown_marker() {
        PathModel::Unknown
    } else if under_root(root, source) {
        PathModel::Relative(joined(beyond_root(root, source), '/'))
    } else if is_toolchain(source) {
        PathModel::Rust(rooted(with_short_id(components(source))))
    } else if is_absolute(source) {
        PathModel::Absolute(source)
    } else {
        PathModel::Relative(source)
    }
}

/// The text under which an identity is written out again.
pub open spec fn text_of(path: PathModel) -> Seq<char> {
    match path {
        PathModel::Unknown => unknown_marker(),
        PathModel::Rust(p) => p,
        PathModel::Relative(p) => p,
        PathModel::Absolute(p) => p,
    }
}

impl Clone for SourcePath {
    fn clone(&self) -> (r: Self)
        ensures
            r@ == self@,
    {
        match self {
            SourcePath::Unknown => SourcePath::Unknown,
            SourcePath::Rust(p) => SourcePath::Rust(p.clone()),
            SourcePath::Relative(p) => SourcePath::Relative(p.clone()),
            SourcePath::Absolute(p) => SourcePath::Absolute(p.clone()),
        }
    }
}

fn is_significant(piece: &Vec<char>) -> (r: bool)
    ensures
        r == significant(piece@),
{
    if piece.len() == 0 {
        false
    } else if piece.len() == 1 && piece[0] == '.' {
        assert(piece@ =~= seq!['.']);
        false
    } else {
        assert(piece@ != seq!['.']) by {
            if piece@.len() == 1 {
                assert(piece@[0] != seq!['.'][0]);
            }
        }
        true
    }
}

/// Splits a path into its components.
pub fn path_components(path: &Vec<char>) -> (r: Vec<Vec<char>>)
    ensures
        views(r@) == components(path@),
{
    let pieces = split_on(path, '/');
    let mut out: Vec<Vec<char>> = Vec::new();
    let mut i: usize = 0;
    assert(views(pieces@).take(0) =~= Seq::empty());
    assert(views(out@) =~= Seq::empty());
    while i < pieces.len()
        invariant
            i <= pieces.len(),
            views(out@) == keep_significant(views(pieces@).take(i as int)),
        decreases pieces.len() - i,
    {
        let ghost before = views(out@);
        proof {
            let next = views(pieces@).take(i + 1);
            assert(next.drop_last() =~= views(pieces@).take(i as int));
            assert(next.last() == pieces@[i as int]@);
        }
        if is_significant(&pieces[i]) {
            out.push(copy_of(&pieces[i]));
            assert(views(out@) =~= before.push(pieces@[i as int]@));
        }
        i += 1;
    }
    assert(views(pieces@).take(pieces.len() as int) =~= views(pieces@));
    out
}

fn starts_with_components(whole: &Vec<Vec<char>>, start: &Vec<Vec<char>>) -> (r: bool)
    ensures
        r == is_prefix(views(start@), views(whole@)),
{
    if start.len() > whole.len() {
        return false;
    }
    let mut i: usize = 0;
    while i < start.len()
        invariant
            i <= start.len() <= whole.len(),
            forall|j: int| 0 <= j < i ==> start@[j]@ == whole@[j]@,
        decreases start.len() - i,
    {
        if !same_text(&start[i], &whole[i]) {
            assert(views(whole@).take(start.len() as int)[i as int] == whole@[i as int]@);
            assert(views(start@)[i as int] == start@[i as int]@);
            return false;
        }
        i += 1;
    }
    assert(views(whole@).take(start.len() as int) =~= views(start@));
    true
}

fn absolute(path: &Vec<char>) -> (r: bool)
    ensures
        r == is_absolute(path@),
{
    path.len() > 0 && path[0] == '/'
}

/// Classifies a raw path of a trace against the project root.
pub fn make_path(root: &str, source: &str) -> (r: SourcePath)
    ensures
        r@ == normalized(root@, source@),
{
    let root_chars = chars_of(root);
    let source_chars = chars_of(source);
    classify(&root_chars, &source_chars)
}

/// Classifies a raw path, given as characters, against the project root.
pub fn classify(root: &Vec<char>, source: &Vec<char>) -> (r: SourcePath)
    ensures
        r@ == normalized(root@, source@),
{
    let marker: Vec<char> = vec!['?', '?', '?'];
    assert(marker@ =~= unknown_marker());
    if same_text(source, &marker) {
        return SourcePath::Unknown;
    }
    let comps = path_components(source);
    let root_comps = path_components(root);
    if absolute(root) == absolute(source) && starts_with_components(
        &comps,
        &root_comps,
    ) {
        let mut rest: Vec<Vec<char>> = Vec::new();
        let mut i: usize = root_comps.len();
        assert(views(rest@) =~= views(comps@).subrange(root_comps.len() as int, i as int));
        while i < comps.len()
            invariant
                root_comps.len() <= i <= comps.len(),
                views(rest@) == views(comps@).subrange(root_comps.len() as int, i as int),
            decreases comps.len() - i,
        {
            let ghost before = views(rest@);
            rest.push(copy_of(&comps[i]));
            assert(views(rest@) =~= before.push(comps@[i as int]@));
            i += 1;
            assert(views(rest@) =~= views(comps@).subrange(root_comps.len() as int, i as int));
        }
        assert(views(rest@) =~= beyond_root(root@, source@));
        let text = join(&rest, '/');
        return SourcePath::Relative(string_of(&text));
    }
    if absolute(source) {
        let segment: Vec<char> = vec!['r', 'u', 's', 't', 'c'];
        assert(segment@ =~= toolchain_segment());
        if comps.len() > 0 && same_text(&comps[0], &segment) {
            let mut shortened: Vec<Vec<char>> = Vec::new();
            let mut i: usize = 0;
            while i < comps.len()
                invariant
                    i <= comps.len(),
                    shortened@.len() == i,
                    forall|j: int|
                        0 <= j < i ==> shortened@[j]@ == with_short_id(views(comps@))[j],
                decreases comps.len() - i,
            {
                if i == 1 && comps[i].len() > BUILD_ID_LEN {
                    shortened.push(slice_of(&comps[i], 0, BUILD_ID_LEN));
                } else {
                    shortened.push(copy_of(&comps[i]));
                }
                i += 1;
            }
            assert(views(shortened@) =~= with_short_id(views(comps@)));
            let mut text: Vec<char> = vec!['/'];
            assert(text@ =~= seq!['/']);
            let tail = join(&shortened, '/');
            append_chars(&mut text, &tail);
            return SourcePath::Rust(string_of(&text));
        }
        return SourcePath::Absolute(string_of(source));
    }
    SourcePath::Relative(string_of(source))
}

/// The text by which an identity is ordered; none for the unknown location.
pub open spec fn order_key(path: PathModel) -> Option<Seq<char>> {
    match path {
        PathModel::Unknown => None,
        PathModel::Rust(p) => Some(p),
        PathModel::Relative(p) => Some(p),
        PathModel::Absolute(p) => Some(p),
    }
}

/// What a path is made of, in the order that decides between two paths: the
/// file system root, the place itself (`.` at the start of a relative
/// path), the directory above (`..`), and a name.
pub enum PathItem {
    Root,
    CurDir,
    ParentDir,
    Normal(Seq<char>),
}

/// The rank of an item: the root first, then `.`, then `..`, then names.
pub open spec fn item_rank(item: PathItem) -> int {
    match item {
        PathItem::Root => 0,
        PathItem::CurDir => 1,
        PathItem::ParentDir => 2,
        PathItem::Normal(_) => 3,
    }
}

/// The item that a component stands for.
pub open spec fn item_of(piece: Seq<char>) -> PathItem {
    if piece == seq!['.', '.'] {
        PathItem::ParentDir
    } else {
        PathItem::Normal(piece)
    }
}

/// Whether a relative path starts with `.`.
pub open spec fn starts_in_place(path: Seq<char>) -> bool {
    !is_absolute(path) && split(path, '/').len() > 0 && split(path, '/')[0] == seq!['.']
}

/// The items of a path: the root for an absolute path or `.` for a relative
/// path that starts with it, then one item for every component.
pub open spec fn path_items(path: Seq<char>) -> Seq<PathItem> {
    let lead = if is_absolute(path) {
        seq![PathItem::Root]
    } else if starts_in_place(path) {
        seq![PathItem::CurDir]
    } else {
        Seq::empty()
    };
    lead + Seq::new(components(path).len(), |i: int| item_of(components(path)[i]))
}

/// How two items compare: by rank, two names by their text. -1, 0 or 1.
pub open spec fn item_order(a: PathItem, b: PathItem) -> int {
    if item_rank(a) < item_rank(b) {
        -1
    } else if item_rank(a) > item_rank(b) {
        1
    } else {
        match (a, b) {
            (PathItem::Normal(x), PathItem::Normal(y)) => text_order(x, y),
            _ => 0,
        }
    }
}

/// How two lists of items compare from index `from` on: by the first pair
/// of items that differ; a list that ends first comes first.
pub open spec fn items_order_from(a: Seq<PathItem>, b: Seq<PathItem>, from: int) -> int
    decreases a.len() - from,
{
    if from < 0 || from >= a.len() {
        if from >= b.len() {
            0
        } else {
            -1
        }
    } else if from >= b.len() {
        1
    } else if item_order(a[from], b[from]) != 0 {
        item_order(a[from], b[from])
    } else {
        items_order_from(a, b, from + 1)
    }
}

/// The items by which an identity is ordered; none for the unknown location.
pub open spec fn order_items(path: PathModel) -> Option<Seq<PathItem>> {
    match order_key(path) {
        Some(p) => Some(path_items(p)),
        None => None,
    }
}

/// How two identities compare: the unknown location first, the others by
/// their paths, item by item from the front, whatever their category. This
/// is the order of `std::path::Path`. -1, 0 or 1.
pub open spec fn path_order(a: PathModel, b: PathModel) -> int {
    match (order_items(a), order_items(b)) {
        (None, None) => 0,
        (None, Some(_)) => -1,
        (Some(_), None) => 1,
        (Some(p), Some(q)) => items_order_from(p, q, 0),
    }
}

/// Two items compare as the same exactly when they are the same item, and
/// comparing them the other way round gives the opposite.
pub proof fn lemma_item_order(a: PathItem, b: PathItem)
    ensures
        item_order(a, b) == 0 <==> a == b,
        item_order(b, a) == -item_order(a, b),
        -1 <= item_order(a, b) <= 1,
{
    match (a, b) {
        (PathItem::Normal(x), PathItem::Normal(y)) => {
            assert(x.take(0) =~= y.take(0));
            lemma_order_zero(x, y, 0);
            lemma_order_reversed(x, y, 0);
            lemma_order_range(x, y, 0);
        },
        _ => {},
    }
}

proof fn lemma_items_order(a: Seq<PathItem>, b: Seq<PathItem>, from: int)
    requires
        0 <= from,
        from <= a.len(),
        from <= b.len(),
        a.take(from) == b.take(from),
    ensures
        items_order_from(a, b, from) == 0 <==> a == b,
        items_order_from(b, a, from) == -items_order_from(a, b, from),
        -1 <= items_order_from(a, b, from) <= 1,
    decreases a.len() - from,
{
    if from < a.len() && from < b.len() {
        lemma_item_order(a[from], b[from]);
        if a[from] == b[from] {
            assert(a.take(from + 1) =~= a.take(from).push(a[from]));
            assert(b.take(from + 1) =~= b.take(from).push(b[from]));
            lemma_items_order(a, b, from + 1);
        }
    } else if from >= a.len() && from >= b.len() {
        assert(a.take(from) =~= a);
        assert(b.take(from) =~= b);
    }
}

/// The order of identities is a true order of their items: two identities
/// compare as the same exactly when they have the same items, and comparing
/// them the other way round gives the opposite.
pub proof fn lemma_path_order(a: PathModel, b: PathModel)
    ensures
        path_order(a, b) == 0 <==> order_items(a) == order_items(b),
        path_order(b, a) == -path_order(a, b),
        -1 <= path_order(a, b) <= 1,
{
    if let (Some(p), Some(q)) = (order_items(a), order_items(b)) {
        assert(p.take(0) =~= q.take(0));
        lemma_items_order(p, q, 0);
    }
}

enum Item {
    Root,
    CurDir,
    ParentDir,
    Normal(Vec<char>),
}

impl Item {
    spec fn model(self) -> PathItem {
        match self {
            Item::Root => PathItem::Root,
            Item::CurDir => PathItem::CurDir,
            Item::ParentDir => PathItem::ParentDir,
            Item::Normal(name) => PathItem::Normal(name@),
        }
    }

    fn rank(&self) -> (r: u8)
        ensures
            r == item_rank(self.model()),
    {
        match self {
            Item::Root => 0,
            Item::CurDir => 1,
            Item::ParentDir => 2,
            Item::Normal(_) => 3,
        }
    }
}

spec fn item_models(items: Seq<Item>) -> Seq<PathItem> {
    Seq::new(items.len(), |i: int| items[i].model())
}

fn items_of(path: &Vec<char>) -> (r: Vec<Item>)
    ensures
        item_models(r@) == path_items(path@),
{
    let mut out: Vec<Item> = Vec::new();
    if absolute(path) {
        out.push(Item::Root);
    } else {
        let pieces = split_on(path, '/');
        if pieces.len() > 0 && pieces[0].len() == 1 && pieces[0][0] == '.' {
            assert(pieces@[0]@ =~= seq!['.']);
            assert(views(pieces@)[0] == pieces@[0]@);
            out.push(Item::CurDir);
        } else {
            assert(!starts_in_place(path@)) by {
                if starts_in_place(path@) {
                    assert(views(pieces@)[0] == pieces@[0]@);
                    assert(seq!['.'].len() == 1 && seq!['.'][0] == '.');
                }
            }
        }
    }
    let ghost lead = item_models(out@);
    let comps = path_components(path);
    let ghost names = Seq::new(
        components(path@).len(),
        |i: int| item_of(components(path@)[i]),
    );
    assert(lead + names =~= path_items(path@));
    let mut i: usize = 0;
    assert(item_models(out@) =~= lead + names.take(0));
    while i < comps.len()
        invariant
            i <= comps.len(),
            views(comps@) == components(path@),
            names.len() == comps.len(),
            forall|j: int| 0 <= j < names.len() ==> names[j] == item_of(views(comps@)[j]),
            item_models(out@) == lead + names.take(i as int),
        decreases comps.len() - i,
    {
        let piece = &comps[i];
        let ghost before = item_models(out@);
        assert(views(comps@)[i as int] == piece@);
        if piece.len() == 2 && piece[0] == '.' && piece[1] == '.' {
            assert(piece@ =~= seq!['.', '.']);
            out.push(Item::ParentDir);
        } else {
            assert(piece@ != seq!['.', '.']) by {
                if piece@ == seq!['.', '.'] {
                    assert(seq!['.', '.'].len() == 2);
                    assert(seq!['.', '.'][0] == '.' && seq!['.', '.'][1] == '.');
                }
            }
            out.push(Item::Normal(copy_of(piece)));
        }
        assert(item_models(out@) =~= before.push(names[i as int]));
        i += 1;
        assert(lead + names.take(i as int) =~= (lead + names.take(i - 1)).push(names[i - 1]));
    }
    assert(names.take(comps.len() as int) =~= names);
    out
}

fn compare_items(a: &Vec<Item>, b: &Vec<Item>) -> (r: i8)
    ensures
        r == items_order_from(item_models(a@), item_models(b@), 0),
        r == -1 || r == 0 || r == 1,
{
    let mut i: usize = 0;
    while i < a.len() && i < b.len()
        invariant
            i <= a.len(),
            i <= b.len(),
            items_order_from(item_models(a@), item_models(b@), 0) == items_order_from(
                item_models(a@),
                item_models(b@),
                i as int,
            ),
        decreases a.len() - i,
    {
        assert(item_models(a@)[i as int] == a@[i as int].model());
        assert(item_models(b@)[i as int] == b@[i as int].model());
        let left = a[i].rank();
        let right = b[i].rank();
        if left < right {
            return -1;
        }
        if left > right {
            return 1;
        }
        let sign: i8 = match (&a[i], &b[i]) {
            (Item::Normal(x), Item::Normal(y)) => compare_text(x, y),
            _ => 0,
        };
        if sign != 0 {
            return sign;
        }
        i += 1;
    }
    if i < b.len() {
        -1
    } else if i < a.len() {
        1
    } else {
        0
    }
}

impl SourcePath {
    /// The stored path; none for the unknown location.
    pub fn path(&self) -> (r: Option<&String>)
        ensures
            match r {
                Some(p) => order_key(self@) == Some(p@),
                None => order_key(self@).is_none(),
            },
    {
        match self {
            SourcePath::Unknown => None,
            SourcePath::Rust(p) => Some(p),
            SourcePath::Relative(p) => Some(p),
            SourcePath::Absolute(p) => Some(p),
        }
    }

    /// The text under which this identity is written out.
    pub fn text(&self) -> (r: String)
        ensures
            r@ == text_of(self@),
    {
        match self {
            SourcePath::Unknown => {
                let marker: Vec<char> = vec!['?', '?', '?'];
                assert(marker@ =~= unknown_marker());
                string_of(&marker)
            },
            SourcePath::Rust(p) => p.clone(),
            SourcePath::Relative(p) => p.clone(),
            SourcePath::Absolute(p) => p.clone(),
        }
    }

    /// Whether both are the same identity.
    pub fn same(&self, other: &SourcePath) -> (r: bool)
        ensures
            r == (self@ == other@),
    {
        match self {
            SourcePath::Unknown => match other {
                SourcePath::Unknown => true,
                _ => false,
            },
            SourcePath::Rust(p) => match other {
                SourcePath::Rust(q) => same_string(p, q),
                _ => false,
            },
            SourcePath::Relative(p) => match other {
                SourcePath::Relative(q) => same_string(p, q),
                _ => false,
            },
            SourcePath::Absolute(p) => match other {
                SourcePath::Absolute(q) => same_string(p, q),
                _ => false,
            },
        }
    }

    /// Orders identities for output: the unknown location first, the others
    /// by their paths as `std::path::Path` orders them, component by
    /// component. Two identities are equal in this order exactly when their
    /// paths have the same items.
    pub fn cmp(&self, other: &SourcePath) -> (r: std::cmp::Ordering)
        ensures
            (r == std::cmp::Ordering::Less) == (path_order(self@, other@) == -1),
            (r == std::cmp::Ordering::Equal) == (path_order(self@, other@) == 0),
            (r == std::cmp::Ordering::Greater) == (path_order(self@, other@) == 1),
            (r == std::cmp::Ordering::Equal) == (order_items(self@) == order_items(other@)),
    {
        proof {
            lemma_path_order(self@, other@);
        }
        match (self.path(), other.path()) {
            (None, None) => std::cmp::Ordering::Equal,
            (None, Some(_)) => std::cmp::Ordering::Less,
            (Some(_), None) => std::cmp::Ordering::Greater,
            (Some(p), Some(q)) => {
                let left = items_of(&chars_of(p.as_str()));
                let right = items_of(&chars_of(q.as_str()));
                let sign = compare_items(&left, &right);
                if sign < 0 {
                    std::cmp::Ordering::Less
                } else if sign > 0 {
                    std::cmp::Ordering::Greater
                } else {
                    std::cmp::Ordering::Equal
                }
            },
        }
    }
}

} // verus!
