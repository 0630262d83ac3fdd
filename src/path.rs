//! Filesystem paths as sequences of components, and the operations that the
//! replication needs on them.
use vstd::prelude::*;

use crate::text::{chars_of, is_lit, split_on};

verus! {

/// A path: whether it starts at the root, and its components in order.
/// Empty components and `.` are not kept; `..` is an ordinary component.
pub struct FsPath {
    pub absolute: bool,
    pub comps: Vec<String>,
}

/// The mathematical value of a path.
pub struct PathView {
    pub absolute: bool,
    pub comps: Seq<Seq<char>>,
}

impl View for FsPath {
    type V = PathView;

    open spec fn view(&self) -> PathView {
        PathView { absolute: self.absolute, comps: self.comps@.map_values(|c: String| c@) }
    }
}

/// Whether a piece of path text between separators is a component.
pub open spec fn is_component(c: Seq<char>) -> bool {
    c.len() > 0 && c != seq!['.']
}

/// The pieces of `ps` that are components, in order.
pub open spec fn kept_components(ps: Seq<Seq<char>>) -> Seq<Seq<char>>
    decreases ps.len(),
{
    if ps.len() == 0 {
        Seq::empty()
    } else {
        let k = kept_components(ps.drop_last());
        if is_component(ps.last()) {
            k.push(ps.last())
        } else {
            k
        }
    }
}

/// The path that a text denotes: absolute when it starts with `/`, its
/// components being the pieces between `/` that are neither empty nor `.`.
pub open spec fn path_of(s: Seq<char>) -> PathView {
    PathView {
        absolute: s.len() > 0 && s[0] == '/',
        comps: kept_components(split_on(s, '/')),
    }
}

/// Components joined by `/`.
pub open spec fn join_text(cs: Seq<Seq<char>>) -> Seq<char>
    decreases cs.len(),
{
    if cs.len() == 0 {
        Seq::empty()
    } else if cs.len() == 1 {
        cs[0]
    } else {
        join_text(cs.drop_last()) + seq!['/'] + cs.last()
    }
}

/// The text of a path: a leading `/` when it is absolute, then its components
/// joined by `/`.
pub open spec fn path_text(p: PathView) -> Seq<char> {
    if p.absolute {
        seq!['/'] + join_text(p.comps)
    } else {
        join_text(p.comps)
    }
}

/// The component `..`.
pub open spec fn up_comp() -> Seq<char> {
    seq!['.', '.']
}

/// The path after merging `/lib` into `/usr/lib`: an absolute path whose first
/// component is `lib` gains `usr` in front; any other path is unchanged.
pub open spec fn usrmerged(p: PathView) -> PathView {
    if p.absolute && p.comps.len() > 0 && p.comps[0] == seq!['l', 'i', 'b'] {
        PathView { absolute: true, comps: seq![seq!['u', 's', 'r']] + p.comps }
    } else {
        p
    }
}

/// The components of `p` after `prefix`, when `prefix`'s components begin `p`'s
/// and the two agree on starting at the root.
pub open spec fn strip_spec(p: PathView, prefix: PathView) -> Option<Seq<Seq<char>>> {
    if p.absolute == prefix.absolute && prefix.comps.len() <= p.comps.len() && p.comps.subrange(
        0,
        prefix.comps.len() as int,
    ) == prefix.comps {
        Some(p.comps.subrange(prefix.comps.len() as int, p.comps.len() as int))
    } else {
        None
    }
}

/// `base` followed by the relative components `rest`.
pub open spec fn join_spec(base: PathView, rest: Seq<Seq<char>>) -> PathView {
    PathView { absolute: base.absolute, comps: base.comps + rest }
}

/// Length of the longest common prefix of two component sequences, counted from `i`.
pub open spec fn common_from(a: Seq<Seq<char>>, b: Seq<Seq<char>>, i: int) -> int
    decreases a.len() - i,
{
    if i < 0 || i >= a.len() || i >= b.len() || a[i] != b[i] {
        i
    } else {
        common_from(a, b, i + 1)
    }
}

/// Length of the longest common prefix of two component sequences.
pub open spec fn common_len(a: Seq<Seq<char>>, b: Seq<Seq<char>>) -> int {
    common_from(a, b, 0)
}

/// The relative path from `from` to `to`: after their longest common prefix of
/// `k` components, one `..` for each component of `from` past `k`, then the
/// components of `to` past `k`.
pub open spec fn relative_spec(from: PathView, to: PathView) -> PathView {
    let k = common_len(from.comps, to.comps);
    PathView {
        absolute: false,
        comps: Seq::new((from.comps.len() - k) as nat, |i: int| up_comp()) + to.comps.subrange(
            k,
            to.comps.len() as int,
        ),
    }
}

/// The directory that holds `p`: `p` without its last component. A path
/// without components is its own directory.
pub open spec fn parent_spec(p: PathView) -> PathView {
    PathView {
        absolute: p.absolute,
        comps: if p.comps.len() > 0 {
            p.comps.drop_last()
        } else {
            p.comps
        },
    }
}

/// The components reached from the directory `base` by following the relative
/// components `rel` in turn: `..` goes up one level (the root stays the root),
/// any other component goes down into it.
pub open spec fn resolve(base: Seq<Seq<char>>, rel: Seq<Seq<char>>) -> Seq<Seq<char>>
    decreases rel.len(),
{
    if rel.len() == 0 {
        base
    } else {
        let next = if rel[0] == up_comp() {
            if base.len() > 0 {
                base.drop_last()
            } else {
                base
            }
        } else {
            base.push(rel[0])
        };
        resolve(next, rel.drop_first())
    }
}

/// `n` times the component `..`.
pub open spec fn ups(n: nat) -> Seq<Seq<char>> {
    Seq::new(n, |i: int| up_comp())
}

proof fn lemma_common_from(a: Seq<Seq<char>>, b: Seq<Seq<char>>, i: int)
    requires
        0 <= i <= a.len(),
        i <= b.len(),
        a.subrange(0, i) == b.subrange(0, i),
    ensures
        i <= common_from(a, b, i) <= a.len(),
        common_from(a, b, i) <= b.len(),
        a.subrange(0, common_from(a, b, i)) == b.subrange(0, common_from(a, b, i)),
    decreases a.len() - i,
{
    if i < a.len() && i < b.len() && a[i] == b[i] {
        assert(a.subrange(0, i + 1) =~= a.subrange(0, i).push(a[i]));
        assert(b.subrange(0, i + 1) =~= b.subrange(0, i).push(b[i]));
        lemma_common_from(a, b, i + 1);
    }
}

proof fn lemma_resolve_ups(base: Seq<Seq<char>>, n: nat, rest: Seq<Seq<char>>)
    requires
        n <= base.len(),
    ensures
        resolve(base, ups(n) + rest) == resolve(base.subrange(0, base.len() - n), rest),
    decreases n,
{
    if n == 0 {
        assert(ups(n) + rest =~= rest);
        assert(base.subrange(0, base.len() as int) =~= base);
    } else {
        let rel = ups(n) + rest;
        assert(rel[0] == up_comp());
        assert(rel.drop_first() =~= ups((n - 1) as nat) + rest);
        lemma_resolve_ups(base.drop_last(), (n - 1) as nat, rest);
        assert(base.drop_last().subrange(0, base.drop_last().len() - (n - 1)) =~= base.subrange(
            0,
            base.len() - n,
        ));
    }
}

proof fn lemma_resolve_down(base: Seq<Seq<char>>, rest: Seq<Seq<char>>)
    requires
        forall|i: int| 0 <= i < rest.len() ==> #[trigger] rest[i] != up_comp(),
    ensures
        resolve(base, rest) == base + rest,
    decreases rest.len(),
{
    if rest.len() == 0 {
        assert(base + rest =~= base);
    } else {
        assert(rest[0] != up_comp());
        let tail = rest.drop_first();
        assert forall|i: int| 0 <= i < tail.len() implies #[trigger] tail[i] != up_comp() by {
            assert(tail[i] == rest[i + 1]);
        }
        lemma_resolve_down(base.push(rest[0]), tail);
        assert(base.push(rest[0]) + tail =~= base + rest);
    }
}

/// Read from the directory `from`, the relative path from `from` to `to`
/// leads to `to`, when `to` holds no `..`.
pub proof fn relative_path_leads_to_target(from: PathView, to: PathView)
    requires
        forall|i: int| 0 <= i < to.comps.len() ==> #[trigger] to.comps[i] != up_comp(),
    ensures
        resolve(from.comps, relative_spec(from, to).comps) == to.comps,
{
    assert(from.comps.subrange(0, 0) =~= to.comps.subrange(0, 0));
    lemma_common_from(from.comps, to.comps, 0);
    let k = common_len(from.comps, to.comps);
    let rest = to.comps.subrange(k, to.comps.len() as int);
    assert(relative_spec(from, to).comps =~= ups((from.comps.len() - k) as nat) + rest);
    lemma_resolve_ups(from.comps, (from.comps.len() - k) as nat, rest);
    assert forall|i: int| 0 <= i < rest.len() implies #[trigger] rest[i] != up_comp() by {
        assert(rest[i] == to.comps[k + i]);
    }
    lemma_resolve_down(from.comps.subrange(0, k), rest);
    assert(from.comps.subrange(0, k) + rest =~= to.comps);
}

fn copy_comps(v: &Vec<String>) -> (r: Vec<String>)
    ensures
        r@.map_values(|c: String| c@) == v@.map_values(|c: String| c@),
{
    let mut r: Vec<String> = Vec::new();
    let mut i: usize = 0;
    while i < v.len()
        invariant
            i <= v@.len(),
            r@.len() == i,
            forall|k: int| 0 <= k < i ==> #[trigger] r@[k]@ == v@[k]@,
        decreases v@.len() - i,
    {
        r.push(v[i].clone());
        i = i + 1;
    }
    assert(r@.map_values(|c: String| c@) =~= v@.map_values(|c: String| c@));
    r
}

impl FsPath {
    /// The path that `s` denotes.
    pub fn parse(s: &str) -> (r: FsPath)
        ensures
            r@ == path_of(s@),
    {
        let cs = chars_of(s);
        let mut comps: Vec<String> = Vec::new();
        let mut start: usize = 0;
        let mut i: usize = 0;
        while i < cs.len()
            invariant
                cs@ == s@,
                start <= i <= cs@.len(),
                split_on(cs@.subrange(0, i as int), '/').len() >= 1,
                comps@.map_values(|c: String| c@) == kept_components(
                    split_on(cs@.subrange(0, i as int), '/').drop_last(),
                ),
                split_on(cs@.subrange(0, i as int), '/').last() == cs@.subrange(
                    start as int,
                    i as int,
                ),
            decreases cs@.len() - i,
        {
            let ghost before = split_on(cs@.subrange(0, i as int), '/');
            assert(cs@.subrange(0, i + 1).drop_last() =~= cs@.subrange(0, i as int));
            if cs[i] == '/' {
                let piece = crate::text::slice_text(s, start, i);
                let ghost after = split_on(cs@.subrange(0, i + 1), '/');
                assert(after.drop_last() =~= before);
                assert(before.drop_last().push(before.last()) =~= before);
                if i > start && !(i - start == 1 && cs[start] == '.') {
                    comps.push(piece);
                    assert(piece@.len() == 1 ==> piece@[0] == cs@[start as int]);
                    assert(seq!['.'].len() == 1 && seq!['.'][0] == '.');
                    assert(is_component(piece@));
                    assert(comps@.map_values(|c: String| c@) =~= kept_components(
                        before.drop_last(),
                    ).push(piece@));
                    assert(kept_components(before) == kept_components(before.drop_last()).push(
                        before.last(),
                    ));
                } else {
                    proof {
                        if piece@.len() == 1 {
                            assert(piece@[0] == cs@[start as int]);
                            assert(piece@ =~= seq!['.']);
                        }
                        assert(!is_component(piece@));
                        assert(kept_components(before) == kept_components(before.drop_last()));
                    }
                }
                start = i + 1;
                assert(cs@.subrange(start as int, i + 1) =~= Seq::<char>::empty());
            } else {
                assert(split_on(cs@.subrange(0, i + 1), '/').drop_last() =~= before.drop_last());
                assert(cs@.subrange(start as int, i as int).push(cs@[i as int]) =~= cs@.subrange(
                    start as int,
                    i + 1,
                ));
            }
            i = i + 1;
        }
        let ghost all = split_on(cs@.subrange(0, i as int), '/');
        assert(cs@.subrange(0, i as int) =~= s@);
        assert(all.drop_last().push(all.last()) =~= all);
        let piece = crate::text::slice_text(s, start, i);
        if i > start && !(i - start == 1 && cs[start] == '.') {
            comps.push(piece);
            assert(piece@.len() == 1 ==> piece@[0] == cs@[start as int]);
            assert(seq!['.'].len() == 1 && seq!['.'][0] == '.');
            assert(is_component(piece@));
            assert(comps@.map_values(|c: String| c@) =~= kept_components(all.drop_last()).push(
                piece@,
            ));
            assert(kept_components(all) == kept_components(all.drop_last()).push(all.last()));
        } else {
            proof {
                if piece@.len() == 1 {
                    assert(piece@[0] == cs@[start as int]);
                    assert(piece@ =~= seq!['.']);
                }
                assert(!is_component(piece@));
                assert(kept_components(all) == kept_components(all.drop_last()));
            }
        }
        let absolute = cs.len() > 0 && cs[0] == '/';
        FsPath { absolute, comps }
    }
    /// The text of this path.
    pub fn render(&self) -> (r: String)
        ensures
            r@ == path_text(self@),
    {
        let mut out = String::new();
        if self.absolute {
            out.append("/");
        }
        proof {
            reveal_strlit("/");
        }
        let ghost head: Seq<char> = out@;
        let mut i: usize = 0;
        while i < self.comps.len()
            invariant
                i <= self.comps@.len(),
                head == (if self.absolute { seq!['/'] } else { Seq::<char>::empty() }),
                out@ == head + join_text(self@.comps.subrange(0, i as int)),
            decreases self.comps@.len() - i,
        {
            let ghost cs = self@.comps;
            proof {
                reveal_strlit("/");
            }
            assert(cs.subrange(0, i + 1).drop_last() =~= cs.subrange(0, i as int));
            if i > 0 {
                out.append("/");
                assert(head + join_text(cs.subrange(0, i + 1)) =~= head + join_text(
                    cs.subrange(0, i as int),
                ) + seq!['/'] + cs[i as int]);
            } else {
                assert(join_text(cs.subrange(0, 1)) == cs[0]);
            }
            out.append(self.comps[i].as_str());
            i = i + 1;
        }
        assert(self@.comps.subrange(0, i as int) =~= self@.comps);
        out
    }

    /// The directory that holds this path.
    pub fn parent(&self) -> (r: FsPath)
        ensures
            r@ == parent_spec(self@),
    {
        let n = self.comps.len();
        let keep = if n > 0 {
            n - 1
        } else {
            0
        };
        let mut comps: Vec<String> = Vec::new();
        let mut i: usize = 0;
        while i < keep
            invariant
                keep == (if n > 0 { n - 1 } else { 0 }),
                n == self.comps@.len(),
                i <= keep,
                comps@.len() == i,
                forall|k: int| 0 <= k < i ==> #[trigger] comps@[k]@ == self@.comps[k],
            decreases keep - i,
        {
            comps.push(self.comps[i].clone());
            i = i + 1;
        }
        let r = FsPath { absolute: self.absolute, comps };
        assert(r@.comps =~= parent_spec(self@).comps);
        r
    }

    /// A copy of this path.
    pub fn duplicate(&self) -> (r: FsPath)
        ensures
            r@ == self@,
    {
        FsPath { absolute: self.absolute, comps: copy_comps(&self.comps) }
    }

    /// The components of this path after `prefix`, when `prefix` begins it.
    pub fn strip_prefix(&self, prefix: &FsPath) -> (r: Option<Vec<String>>)
        ensures
            match strip_spec(self@, prefix@) {
                Some(rest) => r is Some && r->0@.map_values(|c: String| c@) == rest,
                None => r is None,
            },
    {
        if self.absolute != prefix.absolute || prefix.comps.len() > self.comps.len() {
            return None;
        }
        let mut i: usize = 0;
        while i < prefix.comps.len()
            invariant
                i <= prefix.comps@.len() <= self.comps@.len(),
                forall|k: int| 0 <= k < i ==> #[trigger] self@.comps[k] == prefix@.comps[k],
            decreases prefix.comps@.len() - i,
        {
            if self.comps[i] != prefix.comps[i] {
                assert(self@.comps.subrange(0, prefix.comps@.len() as int)[i as int]
                    != prefix@.comps[i as int]);
                return None;
            }
            i = i + 1;
        }
        assert(self@.comps.subrange(0, prefix.comps@.len() as int) =~= prefix@.comps);
        let mut rest: Vec<String> = Vec::new();
        let mut j: usize = i;
        while j < self.comps.len()
            invariant
                i == prefix.comps@.len(),
                i <= j <= self.comps@.len(),
                rest@.len() == j - i,
                forall|k: int| 0 <= k < rest@.len() ==> #[trigger] rest@[k]@ == self@.comps[k + i],
            decreases self.comps@.len() - j,
        {
            rest.push(self.comps[j].clone());
            j = j + 1;
        }
        assert(rest@.map_values(|c: String| c@) =~= self@.comps.subrange(
            i as int,
            self.comps@.len() as int,
        ));
        Some(rest)
    }

    /// This path followed by the relative components `rest`.
    pub fn join(&self, rest: &Vec<String>) -> (r: FsPath)
        ensures
            r@ == join_spec(self@, rest@.map_values(|c: String| c@)),
    {
        let mut comps = copy_comps(&self.comps);
        let ghost base = comps@.map_values(|c: String| c@);
        let mut j: usize = 0;
        while j < rest.len()
            invariant
                j <= rest@.len(),
                comps@.len() == base.len() + j,
                forall|k: int| 0 <= k < base.len() ==> #[trigger] comps@[k]@ == base[k],
                base == self@.comps,
                forall|k: int|
                    base.len() <= k < base.len() + j ==> #[trigger] comps@[k]@ == rest@[k
                        - base.len()]@,
            decreases rest@.len() - j,
        {
            comps.push(rest[j].clone());
            j = j + 1;
        }
        let r = FsPath { absolute: self.absolute, comps };
        assert(r@.comps =~= self@.comps + rest@.map_values(|c: String| c@));
        r
    }
}

/// Merges `/lib` into `/usr/lib`: an absolute path under `/lib` is moved under
/// `/usr/lib`, keeping what follows; any other path is returned unchanged.
pub fn usrmerge(path: &FsPath) -> (r: FsPath)
    ensures
        r@ == usrmerged(path@),
{
    proof {
        reveal_strlit("lib");
        reveal_strlit("usr");
    }
    if path.absolute && path.comps.len() > 0 && is_lit(&chars_of(path.comps[0].as_str()), "lib") {
        let mut comps: Vec<String> = Vec::new();
        comps.push("usr".to_owned());
        let mut j: usize = 0;
        while j < path.comps.len()
            invariant
                j <= path.comps@.len(),
                comps@.len() == j + 1,
                comps@[0]@ == seq!['u', 's', 'r'],
                forall|k: int| 1 <= k <= j ==> #[trigger] comps@[k]@ == path@.comps[k - 1],
            decreases path.comps@.len() - j,
        {
            comps.push(path.comps[j].clone());
            j = j + 1;
        }
        assert("lib"@ =~= seq!['l', 'i', 'b']);
        let r = FsPath { absolute: true, comps };
        assert(r@.comps =~= seq![seq!['u', 's', 'r']] + path@.comps);
        r
    } else {
        assert("lib"@ =~= seq!['l', 'i', 'b']);
        path.duplicate()
    }
}

/// The relative path from `from` to `to`: one `..` for each component of
/// `from` past the longest common prefix, `from`'s last component included,
/// then the components of `to` past it. Read from the directory `from`, the
/// result leads to `to`; a link placed in `from` takes `from` to be its
/// directory.
pub fn relative_path(from: &FsPath, to: &FsPath) -> (r: FsPath)
    requires
        from@.comps != to@.comps,
    ensures
        r@ == relative_spec(from@, to@),
{
    let mut k: usize = 0;
    while k < from.comps.len() && k < to.comps.len() && from.comps[k] == to.comps[k]
        invariant
            k <= from.comps@.len(),
            k <= to.comps@.len(),
            from@.comps.subrange(0, k as int) == to@.comps.subrange(0, k as int),
            common_len(from@.comps, to@.comps) == common_from(from@.comps, to@.comps, k as int),
        decreases from.comps@.len() - k,
    {
        assert(from@.comps.subrange(0, k + 1) =~= from@.comps.subrange(0, k as int).push(
            from@.comps[k as int],
        ));
        assert(to@.comps.subrange(0, k + 1) =~= to@.comps.subrange(0, k as int).push(
            to@.comps[k as int],
        ));
        k = k + 1;
    }
    let ghost kk = k as int;
    assert(common_len(from@.comps, to@.comps) == kk);
    let mut comps: Vec<String> = Vec::new();
    proof {
        reveal_strlit("..");
    }
    let mut j: usize = k;
    while j < from.comps.len()
        invariant
            k <= j <= from.comps@.len(),
            comps@.len() == j - k,
            forall|i: int| 0 <= i < comps@.len() ==> #[trigger] comps@[i]@ == up_comp(),
        decreases from.comps@.len() - j,
    {
        let up = "..".to_owned();
        proof {
            reveal_strlit("..");
        }
        assert(up@ =~= up_comp());
        comps.push(up);
        j = j + 1;
    }
    let ups = comps.len();
    let mut t: usize = k;
    while t < to.comps.len()
        invariant
            k <= t <= to.comps@.len(),
            ups == from.comps@.len() - k,
            comps@.len() == ups + (t - k),
            forall|i: int| 0 <= i < ups ==> #[trigger] comps@[i]@ == up_comp(),
            forall|i: int|
                ups <= i < ups + (t - k) ==> #[trigger] comps@[i]@ == to@.comps[k + i - ups],
        decreases to.comps@.len() - t,
    {
        comps.push(to.comps[t].clone());
        t = t + 1;
    }
    let r = FsPath { absolute: false, comps };
    assert(r@.comps =~= relative_spec(from@, to@).comps);
    r
}

} // verus!
