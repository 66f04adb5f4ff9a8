//! Unix paths as bytes: their components, joining, prefixes and lexical cleaning.
use crate::split::{
    kept, law_split, lemma_kept_concat, lemma_kept_members, lemma_split_around, lemma_split_concat,
    lemma_split_pieces, lemma_split_plain, split,
};
use vstd::prelude::*;
use vstd::slice::*;
use vstd::string::*;
use vstd::utf8::*;

verus! {

/// The byte between the components of a path.
pub const SLASH: u8 = 0x2f;

/// The byte `.`.
pub const DOT: u8 = 0x2e;

/// [`SLASH`] as a predicate.
pub open spec fn slash() -> spec_fn(u8) -> bool {
    |b: u8| b == SLASH
}

/// [`DOT`] as a predicate.
pub open spec fn dots() -> spec_fn(u8) -> bool {
    |b: u8| b == DOT
}

/// The component at the front of an absolute path.
pub open spec fn root_component() -> Seq<u8> {
    seq![SLASH]
}

/// The component `.`, the directory itself.
pub open spec fn here() -> Seq<u8> {
    seq![DOT]
}

/// The component `..`, the parent directory.
pub open spec fn parent() -> Seq<u8> {
    seq![DOT, DOT]
}

/// Holds for the pieces between slashes that name an entry: not the empty one and not `.`.
pub open spec fn entries() -> spec_fn(Seq<u8>) -> bool {
    |piece: Seq<u8>| piece.len() > 0 && piece != here()
}

/// Tells whether a path begins at the root of the file system.
pub open spec fn is_absolute(path: Seq<u8>) -> bool {
    path.len() > 0 && path[0] == SLASH
}

/// The components of a path: the root if the path is absolute, then what stands between the
/// slashes. Repeated and trailing slashes count for nothing, nor does a `.`, except for one that
/// opens a relative path.
pub open spec fn components(path: Seq<u8>) -> Seq<Seq<u8>> {
    let pieces = split(path, slash());
    let lead = if is_absolute(path) {
        seq![root_component()]
    } else if pieces[0] == here() {
        seq![here()]
    } else {
        Seq::<Seq<u8>>::empty()
    };
    lead + kept(pieces, entries())
}

/// Tells whether the components of `base` open those of `path`.
pub open spec fn starts_with(path: Seq<u8>, base: Seq<u8>) -> bool {
    components(base).is_prefix_of(components(path))
}

/// The path `more` seen from `base`: `more` itself if it is absolute, else the two with one slash
/// between them.
pub open spec fn pushed(base: Seq<u8>, more: Seq<u8>) -> Seq<u8> {
    if is_absolute(more) {
        more
    } else if base.len() > 0 && base.last() != SLASH {
        base.push(SLASH) + more
    } else {
        base + more
    }
}

/// The path made of some components.
pub open spec fn assembled(parts: Seq<Seq<u8>>) -> Seq<u8>
    decreases parts.len(),
{
    if parts.len() == 0 {
        Seq::empty()
    } else {
        pushed(assembled(parts.drop_last()), parts.last())
    }
}

/// The components that are left when each `.` is dropped and each `..` takes the entry before it
/// along. A `..` with nothing but `..` before it stays, one at the root is dropped.
pub open spec fn resolved(parts: Seq<Seq<u8>>) -> Seq<Seq<u8>>
    decreases parts.len(),
{
    if parts.len() == 0 {
        parts
    } else {
        let done = resolved(parts.drop_last());
        let part = parts.last();
        if part == here() {
            done
        } else if part != parent() || done.len() == 0 || done.last() == parent() {
            done.push(part)
        } else if done.last() == root_component() {
            done
        } else {
            done.drop_last()
        }
    }
}

/// The shortest path that means the same as `path` by its text alone; `.` if nothing is left.
pub open spec fn cleaned(path: Seq<u8>) -> Seq<u8> {
    let parts = resolved(components(path));
    if parts.len() == 0 {
        here()
    } else {
        assembled(parts)
    }
}

/// The last component of a path, if it names an entry.
pub open spec fn file_name(path: Seq<u8>) -> Option<Seq<u8>> {
    let parts = components(path);
    if parts.len() == 0 || parts.last() == root_component() || parts.last() == here()
        || parts.last() == parent() {
        None
    } else {
        Some(parts.last())
    }
}

/// What follows the last `.` of the file name, unless there is no `.` in it or the only one is its
/// first byte.
pub open spec fn extension(path: Seq<u8>) -> Option<Seq<u8>> {
    match file_name(path) {
        None => None,
        Some(name) => {
            let pieces = split(name, dots());
            if pieces.len() == 1 || (pieces.len() == 2 && pieces[0].len() == 0) {
                None
            } else {
                Some(pieces.last())
            }
        },
    }
}

/// The bytes of each list.
pub open spec fn byte_lists(list: Seq<Vec<u8>>) -> Seq<Seq<u8>> {
    list.map_values(|v: Vec<u8>| v@)
}

/// A path of the file system, by its bytes.
#[derive(Debug)]
pub struct FsPath {
    /// The bytes of the path.
    pub bytes: Vec<u8>,
}

impl View for FsPath {
    type V = Seq<u8>;

    open spec fn view(&self) -> Seq<u8> {
        self.bytes@
    }
}

impl FsPath {
    /// The path with the given text.
    pub fn from_text(text: &str) -> (r: FsPath)
        ensures
            r@ == encode_utf8(text@),
    {
        FsPath { bytes: slice_to_vec(text.as_bytes()) }
    }

    /// Another copy of this path.
    pub fn copy(&self) -> (r: FsPath)
        ensures
            r@ == self@,
    {
        FsPath { bytes: slice_to_vec(self.bytes.as_slice()) }
    }

    /// The path `more` seen from this one.
    pub fn join(&self, more: &[u8]) -> (r: FsPath)
        ensures
            r@ == pushed(self@, more@),
    {
        if more.len() > 0 && more[0] == SLASH {
            return FsPath { bytes: slice_to_vec(more) };
        }
        let mut bytes = slice_to_vec(self.bytes.as_slice());
        if bytes.len() > 0 && bytes[bytes.len() - 1] != SLASH {
            bytes.push(SLASH);
        }
        bytes.extend_from_slice(more);
        assert(bytes@ =~= pushed(self@, more@));
        FsPath { bytes }
    }

    /// The components of this path.
    pub fn parts(&self) -> (r: Vec<Vec<u8>>)
        ensures
            byte_lists(r@) == components(self@),
    {
        let path = self.bytes.as_slice();
        let mut r: Vec<Vec<u8>> = Vec::new();
        let mut start: usize = 0;
        let mut i: usize = 0;
        let ghost sep = slash();
        let ghost mut lead = Seq::<Seq<u8>>::empty();
        if path.len() > 0 && path[0] == SLASH {
            let mut root: Vec<u8> = Vec::new();
            root.push(SLASH);
            r.push(root);
            proof {
                lead = seq![root_component()];
                assert(root@ =~= root_component());
                assert(byte_lists(r@) =~= lead);
            }
        } else if path.len() > 0 && path[0] == DOT && (path.len() == 1 || path[1] == SLASH) {
            let mut dot: Vec<u8> = Vec::new();
            dot.push(DOT);
            r.push(dot);
            proof {
                lead = seq![here()];
                assert(dot@ =~= here());
                assert(byte_lists(r@) =~= lead);
            }
        }
        proof {
            if !is_absolute(path@) {
                lemma_lead(path@);
            }
            assert(components(path@) == lead + kept(split(path@, sep), entries()));
            assert(path@.take(0) == Seq::<u8>::empty());
            assert(split(path@.take(0), sep).drop_last() =~= Seq::<Seq<u8>>::empty());
            assert(byte_lists(r@) =~= lead + Seq::<Seq<u8>>::empty());
        }
        while i < path.len()
            invariant
                path@ == self@,
                sep == slash(),
                start <= i <= path@.len(),
                split(path@.take(i as int), sep).len() >= 1,
                split(path@.take(i as int), sep).last() == path@.subrange(start as int, i as int),
                byte_lists(r@) == lead + kept(
                    split(path@.take(i as int), sep).drop_last(),
                    entries(),
                ),
            decreases path@.len() - i,
        {
            let ghost before = split(path@.take(i as int), sep);
            assert(path@.take(i + 1).drop_last() == path@.take(i as int));
            assert(path@.take(i + 1).last() == path@[i as int]);
            if path[i] == SLASH {
                proof {
                    assert(split(path@.take(i + 1), sep) == before.push(Seq::<u8>::empty()));
                    assert(split(path@.take(i + 1), sep).drop_last() == before);
                }
                push_entry(&mut r, path, start, i);
                proof {
                    assert(byte_lists(r@) =~= lead + kept(before, entries()));
                }
                start = i + 1;
                assert(path@.subrange(start as int, i + 1) == Seq::<u8>::empty());
            } else {
                proof {
                    let after = split(path@.take(i + 1), sep);
                    assert(after == before.drop_last().push(before.last().push(path@[i as int])));
                    assert(after.drop_last() == before.drop_last());
                    assert(before.last().push(path@[i as int]) == path@.subrange(
                        start as int,
                        i + 1,
                    ));
                }
            }
            i += 1;
        }
        assert(path@.take(path@.len() as int) == path@);
        push_entry(&mut r, path, start, i);
        assert(byte_lists(r@) =~= components(self@));
        r
    }

    /// Tells whether the components of `base` open those of this path.
    pub fn starts_with(&self, base: &FsPath) -> (r: bool)
        ensures
            r == starts_with(self@, base@),
    {
        let mine = self.parts();
        let theirs = base.parts();
        let ghost a = components(self@);
        let ghost b = components(base@);
        if theirs.len() > mine.len() {
            return false;
        }
        let mut i: usize = 0;
        while i < theirs.len()
            invariant
                a == components(self@),
                b == components(base@),
                a == byte_lists(mine@),
                b == byte_lists(theirs@),
                i <= theirs@.len() <= mine@.len(),
                forall|k: int| 0 <= k < i ==> a[k] == #[trigger] b[k],
            decreases theirs@.len() - i,
        {
            if !same_bytes(mine[i].as_slice(), theirs[i].as_slice()) {
                proof {
                    let front = a.subrange(0, b.len() as int);
                    assert(front[i as int] == mine@[i as int]@);
                    assert(b[i as int] == theirs@[i as int]@);
                    assert(b != front);
                }
                return false;
            }
            assert(a[i as int] == b[i as int]);
            i += 1;
        }
        assert(b =~= a.subrange(0, b.len() as int));
        true
    }
}

/// Tells whether two runs of bytes are the same.
pub fn same_bytes(a: &[u8], b: &[u8]) -> (r: bool)
    ensures
        r == (a@ == b@),
{
    if a.len() != b.len() {
        return false;
    }
    let mut i: usize = 0;
    while i < a.len()
        invariant
            a@.len() == b@.len(),
            i <= a@.len(),
            forall|k: int| 0 <= k < i ==> a@[k] == b@[k],
        decreases a@.len() - i,
    {
        if a[i] != b[i] {
            return false;
        }
        i += 1;
    }
    assert(a@ =~= b@);
    true
}

/// Adds the bytes `start..end` of `path` to a list of components, if they name an entry.
fn push_entry(list: &mut Vec<Vec<u8>>, path: &[u8], start: usize, end: usize)
    requires
        start <= end <= path@.len(),
    ensures
        byte_lists(final(list)@) == if entries()(path@.subrange(start as int, end as int)) {
            byte_lists(old(list)@).push(path@.subrange(start as int, end as int))
        } else {
            byte_lists(old(list)@)
        },
{
    if start < end && !(end - start == 1 && path[start] == DOT) {
        assert(path@.subrange(start as int, end as int) != here()) by {
            if end - start == 1 {
                assert(path@.subrange(start as int, end as int)[0] == path@[start as int]);
            } else {
                assert(here().len() == 1);
            }
        }
        list.push(slice_to_vec(slice_subrange(path, start, end)));
        assert(byte_lists(list@) =~= byte_lists(old(list)@).push(
            path@.subrange(start as int, end as int),
        ));
    } else {
        assert(start < end ==> path@.subrange(start as int, end as int) =~= here());
    }
}

/// The first piece of a relative path is `.` just when the path is `.` or begins with `./`.
proof fn lemma_lead(path: Seq<u8>)
    requires
        !is_absolute(path),
    ensures
        (split(path, slash())[0] == here()) == (path.len() > 0 && path[0] == DOT && (path.len()
            == 1 || path[1] == SLASH)),
{
    let sep = slash();
    lemma_split_pieces(path, sep);
    if path.len() == 0 {
        assert(split(path, sep)[0].len() == 0);
    } else if path.len() == 1 {
        lemma_split_plain(path, sep);
        assert(path =~= seq![path[0]]);
        if path[0] == DOT {
            assert(path =~= here());
        }
    } else {
        let a = path.take(2);
        let b = path.skip(2);
        assert(a + b == path);
        lemma_split_concat(a, b, sep);
        lemma_split_pieces(b, sep);
        assert(a.drop_last() =~= seq![path[0]]);
        assert(a.last() == path[1]);
        lemma_split_plain(seq![path[0]], sep);
        if path[1] == SLASH {
            assert(split(a, sep) =~= seq![seq![path[0]], Seq::<u8>::empty()]);
            assert(split(path, sep)[0] =~= seq![path[0]]);
            assert(split(path, sep)[0][0] == path[0]);
        } else {
            assert(split(a, sep) =~= seq![seq![path[0]].push(path[1])]);
            assert(split(path, sep)[0].len() >= 2);
        }
    }
}

/// Every component but the root and a leading `.` is an entry: it is not empty, holds no slash and
/// is not `.`.
proof fn lemma_components_entries(path: Seq<u8>)
    ensures
        forall|k: int|
            0 <= k < components(path).len() ==> {
                ||| is_entry(#[trigger] components(path)[k])
                ||| k == 0 && components(path)[k] == root_component() && is_absolute(path)
                ||| k == 0 && components(path)[k] == here() && !is_absolute(path)
            },
{
    let pieces = split(path, slash());
    let names = kept(pieces, entries());
    lemma_split_pieces(path, slash());
    lemma_kept_members(pieces, entries());
    let all = components(path);
    let lead = all.len() - names.len();
    assert forall|k: int| 0 <= k < all.len() implies {
        ||| is_entry(#[trigger] all[k])
        ||| k == 0 && all[k] == root_component() && is_absolute(path)
        ||| k == 0 && all[k] == here() && !is_absolute(path)
    } by {
        if k >= lead {
            assert(all[k] == names[k - lead]);
            let j = choose|j: int| 0 <= j < pieces.len() && pieces[j] == all[k];
            assert forall|i: int| 0 <= i < all[k].len() implies #[trigger] all[k][i] != SLASH by {
                assert(!slash()(pieces[j][i]));
            }
        }
    }
}

/// Tells whether a component names an entry of a directory, `..` included.
pub open spec fn is_entry(part: Seq<u8>) -> bool {
    &&& part.len() > 0
    &&& part != here()
    &&& forall|i: int| 0 <= i < part.len() ==> #[trigger] part[i] != SLASH
}

/// Tells whether a list of components is one that cleaning leaves alone: the root at most at its
/// front, entries otherwise, and a `..` only behind other `..`.
pub open spec fn is_clean(parts: Seq<Seq<u8>>) -> bool {
    &&& forall|k: int|
        0 <= k < parts.len() ==> is_entry(#[trigger] parts[k]) || (k == 0 && parts[k]
            == root_component())
    &&& forall|j: int, k: int|
        0 <= j < k < parts.len() && parts[k] == parent() ==> #[trigger] parts[j]
            == #[trigger] parts[k]
}

/// The components of a path behind another one are those of both.
pub proof fn lemma_pushed_components(base: Seq<u8>, more: Seq<u8>)
    requires
        base.len() > 0,
        !is_absolute(more),
    ensures
        components(pushed(base, more)) == components(base) + kept(split(more, slash()), entries()),
        is_absolute(pushed(base, more)) == is_absolute(base),
{
    let sep = slash();
    let pb = split(base, sep);
    let pm = split(more, sep);
    let whole = pushed(base, more);
    lemma_split_pieces(base, sep);
    lemma_split_pieces(more, sep);
    assert(whole[0] == base[0]);
    let pw = split(whole, sep);
    if base.last() != SLASH {
        lemma_split_around(base, SLASH, more, sep);
        assert(pw == pb + pm);
        lemma_kept_concat(pb, pm, entries());
        assert(pw[0] == pb[0]);
        assert(components(whole) =~= components(base) + kept(pm, entries()));
    } else {
        lemma_split_concat(base, more, sep);
        lemma_split_pieces(base.drop_last(), sep);
        let front = pb.drop_last();
        assert(pb == split(base.drop_last(), sep).push(Seq::<u8>::empty()));
        assert(pb.last() + pm[0] =~= pm[0]);
        assert(pw =~= front + pm);
        lemma_kept_concat(front, pm, entries());
        assert(pb =~= front + seq![Seq::<u8>::empty()]);
        assert(kept(pb, entries()) == kept(front, entries()));
        assert(pw[0] == pb[0]);
        assert(components(whole) =~= components(base) + kept(pm, entries()));
    }
}

/// A path that lies under a directory still does when a relative path is added to it.
pub proof fn law_join_stays_inside(path: Seq<u8>, base: Seq<u8>, more: Seq<u8>)
    requires
        starts_with(path, base),
        !is_absolute(more),
    ensures
        starts_with(pushed(path, more), base),
{
    if path.len() > 0 {
        lemma_pushed_components(path, more);
        let a = components(path);
        let b = components(base);
        let c = components(pushed(path, more));
        assert(b =~= c.subrange(0, b.len() as int)) by {
            assert forall|i: int| 0 <= i < b.len() implies b[i] == c.subrange(
                0,
                b.len() as int,
            )[i] by {
                assert(b[i] == a.subrange(0, b.len() as int)[i]);
            }
        }
    } else {
        assert(kept(split(path, slash()), entries()) =~= Seq::<Seq<u8>>::empty()) by {
            reveal_with_fuel(kept, 2);
        }
        assert(components(path) =~= Seq::<Seq<u8>>::empty());
        assert(components(base) =~= Seq::<Seq<u8>>::empty());
    }
}

/// Every path lies under itself.
pub proof fn law_path_is_inside_itself(path: Seq<u8>)
    ensures
        starts_with(path, path),
{
    let parts = components(path);
    assert(parts =~= parts.subrange(0, parts.len() as int));
}

/// Lying under a directory carries over: what is under a path under a directory is under that
/// directory.
pub proof fn law_inside_is_transitive(path: Seq<u8>, middle: Seq<u8>, base: Seq<u8>)
    requires
        starts_with(path, middle),
        starts_with(middle, base),
    ensures
        starts_with(path, base),
{
    let a = components(path);
    let m = components(middle);
    let b = components(base);
    assert forall|i: int| 0 <= i < b.len() implies b[i] == a.subrange(0, b.len() as int)[i] by {
        assert(b[i] == m.subrange(0, b.len() as int)[i]);
        assert(m[i] == a.subrange(0, m.len() as int)[i]);
    }
    assert(b =~= a.subrange(0, b.len() as int));
}

/// What is left of the components of a path is clean, and begins at the root if the path does.
proof fn lemma_resolved_is_clean(path: Seq<u8>, n: int)
    requires
        0 <= n <= components(path).len(),
    ensures
        is_clean(resolved(components(path).take(n))),
        n > 0 && is_absolute(path) ==> resolved(components(path).take(n)).len() > 0 && resolved(
            components(path).take(n),
        )[0] == root_component(),
        !is_absolute(path) ==> forall|k: int|
            0 <= k < resolved(components(path).take(n)).len() ==> is_entry(
                #[trigger] resolved(components(path).take(n))[k],
            ),
    decreases n,
{
    lemma_components_entries(path);
    let all = components(path);
    if n > 0 {
        lemma_resolved_is_clean(path, n - 1);
        assert(all.take(n).drop_last() == all.take(n - 1));
        assert(all.take(n).last() == all[n - 1]);
        let done = resolved(all.take(n - 1));
        let part = all[n - 1];
        let r = resolved(all.take(n));
        assert(root_component()[0] == SLASH);
        assert(parent()[0] == DOT);
        if is_absolute(path) {
            assert(all[0] == root_component());
            if n == 1 {
                assert(all.take(0) =~= Seq::<Seq<u8>>::empty());
                assert(r =~= seq![root_component()]);
            }
        }
        if part == here() {
        } else if part != parent() {
            assert(r == done.push(part));
            assert(part == root_component() ==> n == 1);
            if n == 1 {
                assert(all.take(0) =~= Seq::<Seq<u8>>::empty());
            }
        } else if done.len() == 0 || done.last() == parent() {
            assert(r == done.push(part));
            assert forall|j: int, k: int|
                0 <= j < k < r.len() && r[k] == parent() implies #[trigger] r[j]
                == #[trigger] r[k] by {
                if k == done.len() && j < done.len() - 1 {
                    assert(done[j] == done[done.len() - 1]);
                }
            }
        }
    }
}

/// Taking a clean list apart again gives the list back, and its path is absolute just when the
/// list begins at the root.
proof fn lemma_assembled_components(parts: Seq<Seq<u8>>)
    requires
        is_clean(parts),
        parts.len() > 0,
    ensures
        components(assembled(parts)) == parts,
        assembled(parts).len() > 0,
        is_absolute(assembled(parts)) == (parts[0] == root_component()),
    decreases parts.len(),
{
    let sep = slash();
    let front = parts.drop_last();
    let part = parts.last();
    assert(root_component()[0] == SLASH);
    assert(part == parts[parts.len() - 1]);
    if front.len() == 0 {
        assert(assembled(front) == Seq::<u8>::empty());
        assert(assembled(parts) =~= part);
        if part == root_component() {
            assert(part.drop_last() =~= Seq::<u8>::empty());
            assert(split(part.drop_last(), sep) == seq![Seq::<u8>::empty()]);
            assert(split(part, sep) =~= seq![Seq::<u8>::empty(), Seq::<u8>::empty()]);
            reveal_with_fuel(kept, 3);
            assert(kept(split(part, sep), entries()) =~= Seq::<Seq<u8>>::empty());
            assert(components(part) =~= parts);
        } else {
            lemma_entry_components(part);
            assert(!is_absolute(part));
            assert(components(part) =~= parts);
        }
    } else {
        assert forall|k: int| 0 <= k < front.len() implies is_entry(#[trigger] front[k]) || (k == 0
            && front[k] == root_component()) by {
            assert(front[k] == parts[k]);
        }
        assert forall|j: int, k: int|
            0 <= j < k < front.len() && front[k] == parent() implies #[trigger] front[j]
            == #[trigger] front[k] by {
            assert(parts[j] == parts[k]);
        }
        lemma_assembled_components(front);
        assert(is_entry(part));
        lemma_entry_components(part);
        lemma_pushed_components(assembled(front), part);
        assert(components(assembled(parts)) =~= parts);
    }
}

/// An entry alone is a relative path with one component.
proof fn lemma_entry_components(part: Seq<u8>)
    requires
        is_entry(part),
    ensures
        kept(split(part, slash()), entries()) == seq![part],
        components(part) == seq![part],
        !is_absolute(part),
{
    lemma_split_plain(part, slash());
    reveal_with_fuel(kept, 2);
    assert(seq![part].drop_last() =~= Seq::<Seq<u8>>::empty());
    assert(kept(split(part, slash()), entries()) =~= seq![part]);
    assert(part[0] != SLASH);
    assert(components(part) =~= seq![part]);
}

/// A cleaned path is never empty, is absolute just when the path was, and holds just the
/// components that are left: a `..` only at its front, no `.` unless it is all there is, and no
/// `..` at all if the path is absolute.
pub proof fn law_cleaned_form(path: Seq<u8>)
    ensures
        cleaned(path).len() > 0,
        is_absolute(cleaned(path)) == is_absolute(path),
        is_clean(resolved(components(path))),
        components(cleaned(path)) == if resolved(components(path)).len() == 0 {
            seq![here()]
        } else {
            resolved(components(path))
        },
        is_absolute(path) ==> forall|k: int|
            0 <= k < components(cleaned(path)).len() ==> #[trigger] components(cleaned(path))[k]
                != parent(),
{
    let all = components(path);
    assert(all.take(all.len() as int) == all);
    lemma_resolved_is_clean(path, all.len() as int);
    let parts = resolved(all);
    assert(root_component()[0] == SLASH);
    assert(parent()[0] == DOT);
    if is_absolute(path) {
        assert(all.len() > 0);
    }
    if parts.len() == 0 {
        lemma_here_components();
    } else {
        lemma_assembled_components(parts);
        if is_absolute(path) {
            assert forall|k: int| 0 <= k < parts.len() implies #[trigger] parts[k] != parent() by {
                if parts[k] == parent() && k > 0 {
                    assert(parts[0] == parts[k]);
                }
            }
        } else {
            assert(is_entry(parts[0]));
        }
    }
}

/// What a cleaned relative path adds to the components of another path is what is left of its own
/// components.
pub proof fn lemma_clean_entries(path: Seq<u8>)
    requires
        !is_absolute(path),
    ensures
        kept(split(cleaned(path), slash()), entries()) == resolved(components(path)),
{
    law_cleaned_form(path);
    let all = components(path);
    assert(all.take(all.len() as int) == all);
    lemma_resolved_is_clean(path, all.len() as int);
    let parts = resolved(all);
    if parts.len() == 0 {
        lemma_here_components();
    } else {
        let text = cleaned(path);
        let names = kept(split(text, slash()), entries());
        assert(is_entry(parts[0]));
        if split(text, slash())[0] == here() {
            assert(components(text)[0] == here());
        }
        assert(components(text) =~= names);
    }
}

/// The path `.` has itself as its only component.
proof fn lemma_here_components()
    ensures
        components(here()) == seq![here()],
        kept(split(here(), slash()), entries()) == Seq::<Seq<u8>>::empty(),
        !is_absolute(here()),
{
    lemma_split_plain(here(), slash());
    reveal_with_fuel(kept, 2);
    assert(kept(split(here(), slash()), entries()) =~= Seq::<Seq<u8>>::empty());
    assert(components(here()) =~= seq![here()]);
}

/// A clean list is its own rest.
proof fn lemma_resolved_of_clean(parts: Seq<Seq<u8>>)
    requires
        is_clean(parts),
    ensures
        resolved(parts) == parts,
    decreases parts.len(),
{
    if parts.len() > 0 {
        let front = parts.drop_last();
        assert forall|k: int| 0 <= k < front.len() implies is_entry(#[trigger] front[k]) || (k == 0
            && front[k] == root_component()) by {
            assert(front[k] == parts[k]);
        }
        assert forall|j: int, k: int|
            0 <= j < k < front.len() && front[k] == parent() implies #[trigger] front[j]
            == #[trigger] front[k] by {
            assert(parts[j] == parts[k]);
        }
        lemma_resolved_of_clean(front);
        assert(parts.last() == parts[parts.len() - 1]);
        assert(root_component()[0] != here()[0]);
        if parts.last() == parent() && front.len() > 0 {
            assert(parts[front.len() - 1] == parts[parts.len() - 1]);
        }
        assert(front.push(parts.last()) =~= parts);
    }
}

/// Cleaning a cleaned path changes nothing.
pub proof fn law_clean_is_idempotent(path: Seq<u8>)
    ensures
        cleaned(cleaned(path)) == cleaned(path),
{
    law_cleaned_form(path);
    let parts = resolved(components(path));
    if parts.len() == 0 {
        lemma_here_components();
        assert(components(here()).drop_last() =~= Seq::<Seq<u8>>::empty());
        assert(resolved(components(here()).drop_last()) =~= Seq::<Seq<u8>>::empty());
        assert(resolved(components(here())) =~= Seq::<Seq<u8>>::empty());
    } else {
        lemma_resolved_of_clean(parts);
    }
}

// ---------------------------------------------------------------------------------------------
// What components are
// ---------------------------------------------------------------------------------------------
/// The simplest paths: nothing has no components, the root of the file system is one, a `.` is one,
/// and an entry is one.
pub proof fn law_simplest_paths(entry: Seq<u8>)
    requires
        is_entry(entry),
    ensures
        components(Seq::empty()) == Seq::<Seq<u8>>::empty(),
        components(seq![0x2fu8]) == seq![seq![0x2fu8]],
        components(seq![0x2eu8]) == seq![seq![0x2eu8]],
        components(entry) == seq![entry],
{
    let none = Seq::<u8>::empty();
    reveal_with_fuel(kept, 2);
    assert(kept(split(none, slash()), entries()) =~= Seq::<Seq<u8>>::empty());
    assert(components(none) =~= Seq::<Seq<u8>>::empty());
    assert(is_clean(seq![root_component()]));
    lemma_assembled_components(seq![root_component()]);
    assert(seq![root_component()].drop_last() =~= Seq::<Seq<u8>>::empty());
    assert(assembled(seq![root_component()]) =~= root_component());
    lemma_here_components();
    lemma_entry_components(entry);
}

/// An entry that is joined to a path is one more component.
pub proof fn law_joined_entry_is_one_more_component(base: Seq<u8>, entry: Seq<u8>)
    requires
        base.len() > 0,
        is_entry(entry),
    ensures
        components(pushed(base, entry)) == components(base).push(entry),
{
    lemma_entry_components(entry);
    lemma_pushed_components(base, entry);
    assert(components(base) + seq![entry] =~= components(base).push(entry));
}

/// A slash behind a path, a `.` behind that, and an entry behind that: the first two are no
/// components, the third is one.
pub proof fn law_slashes_and_dots_are_no_components(base: Seq<u8>, entry: Seq<u8>)
    requires
        base.len() > 0,
        is_entry(entry),
    ensures
        components(base.push(0x2f)) == components(base),
        components(base.push(0x2f).push(0x2e)) == components(base),
        components(base.push(0x2f) + entry) == components(base).push(entry),
{
    let none = Seq::<u8>::empty();
    let with = base.push(SLASH);
    reveal_with_fuel(kept, 2);
    assert(kept(split(none, slash()), entries()) =~= Seq::<Seq<u8>>::empty());
    lemma_split_pieces(base, slash());
    lemma_split_around(base, SLASH, none, slash());
    assert(base.push(SLASH) + none =~= with);
    lemma_kept_concat(split(base, slash()), split(none, slash()), entries());
    assert(kept(split(with, slash()), entries()) =~= kept(split(base, slash()), entries()));
    assert(split(with, slash())[0] == split(base, slash())[0]);
    assert(with[0] == base[0]);
    assert(components(with) =~= components(base));
    lemma_here_components();
    lemma_pushed_components(with, here());
    assert(pushed(with, here()) =~= with.push(DOT));
    assert(components(with) + Seq::<Seq<u8>>::empty() =~= components(with));
    lemma_entry_components(entry);
    lemma_pushed_components(with, entry);
    assert(components(with) + seq![entry] =~= components(with).push(entry));
}

/// Joining puts the second path behind the first, with one slash between them where there is none
/// yet; a path that begins at the root of the file system stands alone.
pub proof fn law_joining(base: Seq<u8>, more: Seq<u8>)
    ensures
        ({
            let joined = pushed(base, more);
            if more.len() > 0 && more[0] == 0x2f {
                joined == more
            } else {
                &&& joined.len() >= more.len()
                &&& joined.skip(joined.len() - more.len()) == more
                &&& joined.take(joined.len() - more.len()) == base || joined.take(
                    joined.len() - more.len(),
                ) == base.push(0x2f)
                &&& base.len() > 0 ==> joined[joined.len() - more.len() - 1] == 0x2f
                &&& (base.len() == 0 || base.last() == 0x2f) ==> joined.len() == base.len()
                    + more.len()
            }
        }),
{
    let joined = pushed(base, more);
    if !is_absolute(more) {
        let n = joined.len() - more.len();
        assert(joined.skip(n) =~= more);
        if base.len() > 0 && base.last() != SLASH {
            assert(joined.take(n) =~= base.push(0x2f));
        } else {
            assert(joined.take(n) =~= base);
        }
    }
}

/// A path lies under a directory just when its components are those of the directory with others
/// behind them.
pub proof fn law_lying_under_a_directory(path: Seq<u8>, base: Seq<u8>)
    ensures
        starts_with(path, base) <==> exists|rest: Seq<Seq<u8>>|
            components(path) == #[trigger] (components(base) + rest),
{
    let a = components(path);
    let b = components(base);
    if starts_with(path, base) {
        assert(a =~= b + a.skip(b.len() as int));
    }
    if exists|rest: Seq<Seq<u8>>| a == #[trigger] (b + rest) {
        let rest = choose|rest: Seq<Seq<u8>>| a == #[trigger] (b + rest);
        assert(b =~= a.subrange(0, b.len() as int));
    }
}

/// The extension of a file is what stands behind the last dot of its name; a name without a dot,
/// or with none but at its front, has none.
pub proof fn law_extension(dir: Seq<u8>, stem: Seq<u8>, ext: Seq<u8>)
    requires
        dir.len() > 0,
        stem.len() > 0,
        is_entry(stem),
        forall|i: int| 0 <= i < ext.len() ==> #[trigger] ext[i] != 0x2e && ext[i] != 0x2f,
        stem.push(0x2e) + ext != parent(),
    ensures
        extension(pushed(dir, stem.push(0x2e) + ext)) == Some(ext),
        (forall|i: int| 0 < i < stem.len() ==> #[trigger] stem[i] != 0x2e) ==> extension(
            pushed(dir, stem),
        ) is None,
{
    let name = stem.push(DOT) + ext;
    assert(is_entry(name)) by {
        assert forall|i: int| 0 <= i < name.len() implies #[trigger] name[i] != SLASH by {
            if i < stem.len() {
                assert(name[i] == stem[i]);
            } else if i > stem.len() {
                assert(name[i] == ext[i - stem.len() - 1]);
            }
        }
        assert(name.len() >= 2);
    }
    law_joined_entry_is_one_more_component(dir, name);
    law_joined_entry_is_one_more_component(dir, stem);
    assert(root_component()[0] == SLASH);
    assert(name[0] != SLASH);
    assert(stem[0] != SLASH);
    assert(file_name(pushed(dir, name)) == Some(name));
    lemma_split_pieces(stem, dots());
    assert forall|i: int| 0 <= i < ext.len() implies !dots()(#[trigger] ext[i]) by {
        assert(ext[i] != 0x2e);
    }
    lemma_split_around(stem, DOT, ext, dots());
    lemma_split_plain(ext, dots());
    let pieces = split(name, dots());
    assert(pieces == split(stem, dots()) + seq![ext]);
    assert(pieces.last() == ext);
    if pieces.len() == 2 {
        // The stem is one piece, so it is the first one.
        lemma_single_piece(stem, dots());
    }
    if forall|i: int| 0 < i < stem.len() ==> #[trigger] stem[i] != 0x2e {
        if stem == parent() {
            assert(stem[1] == 0x2e);
        }
        let none = Seq::<u8>::empty();
        if stem[0] == DOT {
            let rest = stem.skip(1);
            assert forall|i: int| 0 <= i < rest.len() implies !dots()(#[trigger] rest[i]) by {
                assert(rest[i] == stem[i + 1]);
            }
            law_split(none, DOT, rest, dots());
            lemma_split_plain(rest, dots());
            assert(none.push(DOT) + rest =~= stem);
            assert(split(stem, dots()) =~= seq![none, rest]);
        } else {
            assert forall|i: int| 0 <= i < stem.len() implies !dots()(#[trigger] stem[i]) by {
                if i > 0 {
                    assert(stem[i] != 0x2e);
                }
            }
            lemma_split_plain(stem, dots());
        }
    }
}

/// A sequence with one piece is that piece.
proof fn lemma_single_piece<T>(s: Seq<T>, sep: spec_fn(T) -> bool)
    requires
        split(s, sep).len() == 1,
    ensures
        split(s, sep)[0] == s,
    decreases s.len(),
{
    if s.len() > 0 {
        lemma_split_pieces(s.drop_last(), sep);
        let before = split(s.drop_last(), sep);
        if !sep(s.last()) {
            lemma_single_piece(s.drop_last(), sep);
            assert(before.last().push(s.last()) =~= s);
        }
    }
}

/// The bytes of a list are those of its members, each in its place.
pub proof fn law_byte_lists(list: Seq<Vec<u8>>)
    ensures
        byte_lists(list).len() == list.len(),
        forall|i: int| 0 <= i < list.len() ==> #[trigger] byte_lists(list)[i] == list[i]@,
{
}

} // verus!
