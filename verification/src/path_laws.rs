//! What holds of path classification when it is applied to its own output.

use vstd::prelude::*;
use crate::source_path::{
    beyond_root, components, is_absolute, is_prefix, is_toolchain, keep_significant, normalized,
    rooted, short_id, significant, text_of, under_root, unknown_marker, with_short_id,
};
use crate::text::{index_of, joined, lemma_index_of_bounds, lemma_index_of_is, split, split_from};

verus! {

/// Every piece names something and holds no separator.
pub open spec fn clean(comps: Seq<Seq<char>>) -> bool {
    forall|i: int| 0 <= i < comps.len() ==> significant(#[trigger] comps[i]) && !comps[i].contains('/')
}

/// The inputs on which classifying the output once more gives another identity:
/// a path below the root whose remainder reads as the unknown marker or, under
/// a relative root, starts with the root again; and a toolchain path that
/// lies below the root only once its build identifier is shortened.
pub open spec fn unstable(root: Seq<char>, source: Seq<char>) -> bool {
    source != unknown_marker() && if under_root(root, source) {
        let rest = beyond_root(root, source);
        joined(rest, '/') == unknown_marker() || (!is_absolute(root) && components(root).len() > 0
            && is_prefix(components(root), rest))
    } else {
        is_toolchain(source) && under_root(root, rooted(with_short_id(components(source))))
    }
}

proof fn lemma_split_single(c: Seq<char>, sep: char)
    requires
        !c.contains(sep),
    ensures
        split(c, sep) == seq![c],
{
    lemma_index_of_is(c, sep, 0, c.len() as int);
    assert(c.subrange(0, c.len() as int) =~= c);
}

/// Splitting a text that ends in a separator and a separator-free piece gives
/// the pieces of what stands before, then that piece.
proof fn lemma_split_appended(a: Seq<char>, c: Seq<char>, sep: char, from: int)
    requires
        0 <= from <= a.len(),
        !c.contains(sep),
    ensures
        split_from(a.push(sep) + c, sep, from) == split_from(a, sep, from).push(c),
    decreases a.len() - from,
{
    let s = a.push(sep) + c;
    let e = index_of(a, sep, from);
    lemma_index_of_bounds(a, sep, from);
    assert forall|j: int| 0 <= j < a.len() implies s[j] == a[j] by {}
    assert(s[a.len() as int] == sep);
    assert forall|j: int| a.len() < j < s.len() implies s[j] != sep by {
        assert(s[j] == c[j - a.len() - 1]);
        assert(c.contains(c[j - a.len() - 1]));
    }
    if e < a.len() {
        lemma_index_of_is(s, sep, from, e);
        lemma_split_appended(a, c, sep, e + 1);
        assert(s.subrange(from, e) =~= a.subrange(from, e));
        assert((seq![a.subrange(from, e)] + split_from(a, sep, e + 1)).push(c) =~= seq![
            a.subrange(from, e),
        ] + split_from(a, sep, e + 1).push(c));
    } else {
        lemma_index_of_is(s, sep, from, a.len() as int);
        lemma_index_of_is(s, sep, a.len() as int + 1, s.len() as int);
        assert(s.subrange(from, a.len() as int) =~= a.subrange(from, a.len() as int));
        assert(s.subrange(a.len() as int + 1, s.len() as int) =~= c);
        assert(split_from(s, sep, a.len() as int + 1) =~= seq![c]);
        assert(seq![a.subrange(from, a.len() as int)] + seq![c] =~= seq![
            a.subrange(from, a.len() as int),
        ].push(c));
    }
}

/// Joining separator-free pieces and splitting again gives the pieces back.
proof fn lemma_split_joined(parts: Seq<Seq<char>>, sep: char)
    requires
        parts.len() > 0,
        forall|i: int| 0 <= i < parts.len() ==> !(#[trigger] parts[i]).contains(sep),
    ensures
        split(joined(parts, sep), sep) == parts,
    decreases parts.len(),
{
    if parts.len() == 1 {
        lemma_split_single(parts[0], sep);
        assert(parts =~= seq![parts[0]]);
    } else {
        let front = parts.drop_last();
        assert forall|i: int| 0 <= i < front.len() implies !(#[trigger] front[i]).contains(
            sep,
        ) by {
            assert(front[i] == parts[i]);
        }
        lemma_split_joined(front, sep);
        lemma_split_appended(joined(front, sep), parts.last(), sep, 0);
        assert(front.push(parts.last()) =~= parts);
    }
}

proof fn lemma_keep_clean(comps: Seq<Seq<char>>)
    requires
        clean(comps),
    ensures
        keep_significant(comps) == comps,
    decreases comps.len(),
{
    if comps.len() > 0 {
        assert forall|i: int| 0 <= i < comps.drop_last().len() implies significant(
            #[trigger] comps.drop_last()[i],
        ) && !comps.drop_last()[i].contains('/') by {
            assert(comps.drop_last()[i] == comps[i]);
        }
        lemma_keep_clean(comps.drop_last());
        assert(comps.drop_last().push(comps.last()) =~= comps);
    } else {
        assert(comps =~= Seq::empty());
    }
}

proof fn lemma_keep_after_empty(comps: Seq<Seq<char>>)
    ensures
        keep_significant(seq![Seq::<char>::empty()] + comps) == keep_significant(comps),
    decreases comps.len(),
{
    let all = seq![Seq::<char>::empty()] + comps;
    if comps.len() == 0 {
        assert(all.drop_last() =~= Seq::empty());
        assert(keep_significant(all.drop_last()) =~= Seq::empty());
    } else {
        lemma_keep_after_empty(comps.drop_last());
        assert(all.drop_last() =~= seq![Seq::<char>::empty()] + comps.drop_last());
        assert(all.last() == comps.last());
    }
}

/// The components of a joined clean list are the list.
pub proof fn lemma_components_of_joined(comps: Seq<Seq<char>>)
    requires
        clean(comps),
    ensures
        components(joined(comps, '/')) == comps,
        !is_absolute(joined(comps, '/')),
{
    if comps.len() == 0 {
        let e = Seq::<char>::empty();
        assert(joined(comps, '/') =~= e);
        lemma_split_single(e, '/');
        lemma_keep_after_empty(Seq::empty());
        assert(seq![e] + Seq::<Seq<char>>::empty() =~= seq![e]);
        assert(comps =~= Seq::empty());
    } else {
        lemma_split_joined(comps, '/');
        lemma_keep_clean(comps);
        lemma_joined_starts(comps);
    }
}

/// A joined list of pieces starts with its first piece.
proof fn lemma_joined_starts(comps: Seq<Seq<char>>)
    requires
        comps.len() > 0,
    ensures
        joined(comps, '/').len() >= comps[0].len(),
        joined(comps, '/').take(comps[0].len() as int) == comps[0],
    decreases comps.len(),
{
    if comps.len() == 1 {
        assert(comps[0].take(comps[0].len() as int) =~= comps[0]);
    } else {
        lemma_joined_starts(comps.drop_last());
        assert(comps.drop_last()[0] == comps[0]);
        let front = joined(comps.drop_last(), '/');
        assert(joined(comps, '/').take(comps[0].len() as int) =~= front.take(
            comps[0].len() as int,
        ));
    }
}

/// The components of an absolute path built from a clean list are the list.
pub proof fn lemma_components_of_rooted(comps: Seq<Seq<char>>)
    requires
        clean(comps),
    ensures
        components(rooted(comps)) == comps,
        is_absolute(rooted(comps)),
        rooted(comps) != unknown_marker(),
{
    let e = Seq::<char>::empty();
    assert(rooted(comps)[0] == '/');
    assert(unknown_marker()[0] == '?');
    if comps.len() == 0 {
        assert(joined(comps, '/') =~= e);
        assert(rooted(comps) =~= e.push('/') + e);
        lemma_split_single(e, '/');
        lemma_split_appended(e, e, '/', 0);
        lemma_keep_after_empty(seq![e]);
        lemma_keep_after_empty(Seq::empty());
        assert(seq![e] + Seq::<Seq<char>>::empty() =~= seq![e]);
        assert(seq![e] + seq![e] =~= seq![e].push(e));
        assert(comps =~= Seq::empty());
    } else {
        let all = seq![e] + comps;
        lemma_joined_after_empty(comps);
        assert forall|i: int| 0 <= i < all.len() implies !(#[trigger] all[i]).contains('/') by {
            if i > 0 {
                assert(all[i] == comps[i - 1]);
            }
        }
        lemma_split_joined(all, '/');
        lemma_keep_after_empty(comps);
        lemma_keep_clean(comps);
    }
}

proof fn lemma_joined_after_empty(comps: Seq<Seq<char>>)
    requires
        comps.len() > 0,
    ensures
        joined(seq![Seq::<char>::empty()] + comps, '/') == rooted(comps),
    decreases comps.len(),
{
    let e = Seq::<char>::empty();
    let all = seq![e] + comps;
    assert(all.drop_last() =~= seq![e] + comps.drop_last());
    assert(all.last() == comps.last());
    if comps.len() == 1 {
        assert(all.drop_last() =~= seq![e]);
        assert(joined(seq![e], '/') == e);
        assert(joined(comps, '/') == comps[0]);
        assert(joined(all, '/') == joined(all.drop_last(), '/').push('/') + all.last());
        assert(joined(all, '/') =~= rooted(comps));
    } else {
        lemma_joined_after_empty(comps.drop_last());
        assert(joined(all, '/') =~= rooted(comps));
    }
}

proof fn lemma_pieces_have_no_separator(s: Seq<char>, sep: char, from: int)
    requires
        0 <= from <= s.len(),
    ensures
        forall|i: int|
            0 <= i < split_from(s, sep, from).len() ==> !(#[trigger] split_from(
                s,
                sep,
                from,
            )[i]).contains(sep),
    decreases s.len() - from,
{
    let end = index_of(s, sep, from);
    lemma_index_of_bounds(s, sep, from);
    let first = s.subrange(from, end);
    assert(!first.contains(sep)) by {
        if first.contains(sep) {
            let j = choose|j: int| 0 <= j < first.len() && first[j] == sep;
            assert(s[from + j] == sep);
        }
    }
    if end < s.len() {
        lemma_pieces_have_no_separator(s, sep, end + 1);
        let rest = split_from(s, sep, end + 1);
        assert forall|i: int| 0 <= i < split_from(s, sep, from).len() implies !(
        #[trigger] split_from(s, sep, from)[i]).contains(sep) by {
            if i > 0 {
                assert(split_from(s, sep, from)[i] == rest[i - 1]);
            }
        }
    }
}

proof fn lemma_keep_significant_clean(pieces: Seq<Seq<char>>)
    requires
        forall|i: int| 0 <= i < pieces.len() ==> !(#[trigger] pieces[i]).contains('/'),
    ensures
        clean(keep_significant(pieces)),
    decreases pieces.len(),
{
    if pieces.len() > 0 {
        assert forall|i: int| 0 <= i < pieces.drop_last().len() implies !(
        #[trigger] pieces.drop_last()[i]).contains('/') by {
            assert(pieces.drop_last()[i] == pieces[i]);
        }
        lemma_keep_significant_clean(pieces.drop_last());
    }
}

/// The components of any path are clean.
pub proof fn lemma_components_clean(path: Seq<char>)
    ensures
        clean(components(path)),
{
    lemma_pieces_have_no_separator(path, '/', 0);
    lemma_keep_significant_clean(split(path, '/'));
}

proof fn lemma_short_id(comps: Seq<Seq<char>>)
    requires
        clean(comps),
    ensures
        clean(with_short_id(comps)),
        with_short_id(with_short_id(comps)) == with_short_id(comps),
        with_short_id(comps).len() == comps.len(),
        comps.len() > 0 ==> with_short_id(comps)[0] == comps[0],
{
    if comps.len() > 1 {
        let id = comps[1];
        let short = short_id(id);
        assert(significant(id) && !id.contains('/'));
        assert(!short.contains('/')) by {
            if short.contains('/') {
                let j = choose|j: int| 0 <= j < short.len() && short[j] == '/';
                assert(id[j] == '/');
            }
        }
        assert(short != seq!['.']) by {
            if id.len() > 8 {
                assert(short.len() == 8);
            }
        }
        assert(short_id(short) =~= short);
        assert(with_short_id(with_short_id(comps)) =~= with_short_id(comps));
    }
}

/// Classifying a path, writing the identity out and classifying it again
/// gives the same identity, for every input that is not unstable.
pub proof fn lemma_normalize_idempotent(root: Seq<char>, source: Seq<char>)
    requires
        !unstable(root, source),
    ensures
        normalized(root, text_of(normalized(root, source))) == normalized(root, source),
{
    lemma_components_clean(source);
    lemma_components_clean(root);
    if source == unknown_marker() {
    } else if under_root(root, source) {
        let rest = beyond_root(root, source);
        let text = joined(rest, '/');
        assert(clean(rest)) by {
            assert forall|i: int| 0 <= i < rest.len() implies significant(#[trigger] rest[i])
                && !rest[i].contains('/') by {
                assert(rest[i] == components(source)[i + components(root).len()]);
            }
        }
        lemma_components_of_joined(rest);
        if under_root(root, text) {
            assert(components(root).len() == 0);
            assert(beyond_root(root, text) =~= rest);
        }
    } else if is_toolchain(source) {
        let comps = with_short_id(components(source));
        lemma_short_id(components(source));
        lemma_components_of_rooted(comps);
    } else {
    }
}

/// On every unstable input the second classification differs from the first.
pub proof fn lemma_unstable_changes(root: Seq<char>, source: Seq<char>)
    requires
        unstable(root, source),
    ensures
        normalized(root, text_of(normalized(root, source))) != normalized(root, source),
{
    lemma_components_clean(source);
    lemma_components_clean(root);
    if under_root(root, source) {
        let rest = beyond_root(root, source);
        let text = joined(rest, '/');
        assert(clean(rest)) by {
            assert forall|i: int| 0 <= i < rest.len() implies significant(#[trigger] rest[i])
                && !rest[i].contains('/') by {
                assert(rest[i] == components(source)[i + components(root).len()]);
            }
        }
        lemma_components_of_joined(rest);
        if text != unknown_marker() {
            assert(under_root(root, text));
            let again = beyond_root(root, text);
            assert(clean(again)) by {
                assert forall|i: int| 0 <= i < again.len() implies significant(
                    #[trigger] again[i],
                ) && !again[i].contains('/') by {
                    assert(again[i] == rest[i + components(root).len()]);
                }
            }
            lemma_components_of_joined(again);
            assert(again.len() < rest.len());
            if joined(again, '/') == text {
                assert(components(joined(again, '/')) == components(text));
            }
        }
    } else {
        let comps = with_short_id(components(source));
        lemma_short_id(components(source));
        lemma_components_of_rooted(comps);
    }
}

/// Two toolchain paths that differ only in what follows the first
/// characters of the build identifier, or in how their separators are
/// written, get the same identity.
pub proof fn lemma_toolchain_identity(root: Seq<char>, a: Seq<char>, b: Seq<char>)
    requires
        is_toolchain(a),
        is_toolchain(b),
        !under_root(root, a),
        !under_root(root, b),
        with_short_id(components(a)) == with_short_id(components(b)),
    ensures
        normalized(root, a) == normalized(root, b),
{
    assert(a[0] == '/' && b[0] == '/');
    assert(unknown_marker()[0] == '?');
}

} // verus!
