//! Paths: the names from the root down to a directory, and the prompt that
//! shows them.

use vstd::prelude::*;
use crate::bytes::copy_at;
use crate::fs::arena::FilesystemArena;
use crate::fs::model::{dir_well_formed, parent_or_root, path_of, well_formed, DirModel, MAX_DEPTH};
use crate::name::Name;

verus! {

/// The path separator, `/`.
pub open spec fn separator() -> u8 {
    '/' as u8
}

/// What ends a prompt: `> `.
pub open spec fn marker() -> Seq<u8> {
    seq!['>' as u8, ' ' as u8]
}

/// `/`, then each name of `parts` followed by `/`, built in a buffer of `cap`
/// bytes. A name that is empty is passed over, and so is one that would not
/// leave room for its `/`: the names after it are still tried.
pub open spec fn joined(parts: Seq<Seq<u8>>, cap: int) -> Seq<u8>
    decreases parts.len(),
{
    if parts.len() == 0 {
        seq![separator()]
    } else {
        let head = joined(parts.drop_last(), cap);
        let name = parts.last();
        if name.len() > 0 && head.len() + name.len() < cap {
            head + name + seq![separator()]
        } else {
            head
        }
    }
}

/// The path part of a prompt: the joined names without the `/` at the end,
/// except that the root alone stays `/`.
pub open spec fn prompt_body(parts: Seq<Seq<u8>>, cap: int) -> Seq<u8> {
    let j = joined(parts, cap);
    if j.len() > 1 {
        j.drop_last()
    } else {
        j
    }
}

/// The prompt for the directory reached by `parts`: the path, then the
/// marker wherever the two fit the buffer.
pub open spec fn prompt(parts: Seq<Seq<u8>>, cap: int) -> Seq<u8> {
    let body = prompt_body(parts, cap);
    if body.len() + 2 <= cap {
        body + marker()
    } else {
        body
    }
}

/// A path written out: `/`, then the names of `parts` with `/` between
/// them.
pub open spec fn path_text(parts: Seq<Seq<u8>>) -> Seq<u8>
    decreases parts.len(),
{
    if parts.len() == 0 {
        seq![separator()]
    } else if parts.len() == 1 {
        seq![separator()] + parts[0]
    } else {
        path_text(parts.drop_last()) + seq![separator()] + parts.last()
    }
}

/// Names as contracts speak of them.
pub open spec fn names_view(names: Seq<Name>) -> Seq<Seq<u8>> {
    Seq::new(names.len(), |i: int| names[i]@)
}

/// The first `n` names of `parts`, last one first.
pub open spec fn reversed_names(parts: Seq<Name>, n: int) -> Seq<Seq<u8>> {
    Seq::new(n as nat, |j: int| parts[n - 1 - j]@)
}

/// The joined names start and end with `/`, fit the buffer, and are either
/// the bare `/` or hold a name between two of them.
pub proof fn lemma_joined_bounds(parts: Seq<Seq<u8>>, cap: int)
    requires
        cap >= 1,
    ensures
        1 <= joined(parts, cap).len() <= cap,
        joined(parts, cap).len() != 2,
        joined(parts, cap)[0] == separator(),
        joined(parts, cap).last() == separator(),
    decreases parts.len(),
{
    if parts.len() > 0 {
        lemma_joined_bounds(parts.drop_last(), cap);
    }
}

/// A prompt fits its buffer.
pub proof fn lemma_prompt_bounds(parts: Seq<Seq<u8>>, cap: int)
    requires
        cap >= 1,
    ensures
        1 <= prompt(parts, cap).len() <= cap,
{
    lemma_joined_bounds(parts, cap);
}

/// Names that are not empty, and that fit the buffer together with the `/`
/// after each of them, are all joined: none is passed over.
proof fn lemma_joined_whole(parts: Seq<Seq<u8>>, cap: int)
    requires
        forall|i: int| 0 <= i < parts.len() ==> (#[trigger] parts[i]).len() > 0,
        path_text(parts).len() < cap,
    ensures
        parts.len() == 0 ==> joined(parts, cap) == seq![separator()],
        parts.len() > 0 ==> joined(parts, cap) == path_text(parts) + seq![separator()],
    decreases parts.len(),
{
    if parts.len() > 0 {
        let front = parts.drop_last();
        assert forall|i: int| 0 <= i < front.len() implies (#[trigger] front[i]).len() > 0 by {
            assert(front[i] == parts[i]);
        }
        if parts.len() == 1 {
            assert(parts.last() == parts[0]);
        }
        lemma_joined_whole(front, cap);
    }
}

/// Wherever the whole path and the marker fit the buffer, the prompt is
/// exactly the two: `/`, the names with `/` between them, then `> `, with
/// no name left out and the marker in place. This holds of every path whose
/// names are not empty.
pub proof fn lemma_prompt_whole(parts: Seq<Seq<u8>>, cap: int)
    requires
        forall|i: int| 0 <= i < parts.len() ==> (#[trigger] parts[i]).len() > 0,
        path_text(parts).len() + 2 <= cap,
    ensures
        prompt(parts, cap) == path_text(parts) + marker(),
{
    lemma_joined_whole(parts, cap);
    if parts.len() > 0 {
        assert(joined(parts, cap).drop_last() =~= path_text(parts));
    }
}

/// A path has at most as many names as the walk may collect.
pub proof fn lemma_path_len(t: Seq<DirModel>, dir: int, bound: nat)
    ensures
        path_of(t, dir, bound).len() <= bound,
    decreases bound,
{
    if dir != 0 && bound != 0 {
        lemma_path_len(t, parent_or_root(t, dir), (bound - 1) as nat);
    }
}

impl FilesystemArena {
    /// Walks from `dir` towards the root and collects the names it passes,
    /// `dir`'s own first, until it reaches the root or has `MAX_DEPTH` names.
    fn ancestors(&self, dir: usize) -> (r: ([Name; MAX_DEPTH], usize))
        requires
            self.wf(),
            dir < self@.len(),
        ensures
            r.1 <= MAX_DEPTH,
            path_of(self@, dir as int, MAX_DEPTH as nat) == reversed_names(r.0@, r.1 as int),
    {
        let ghost t = self@;
        proof {
            self.lemma_wf();
        }
        let mut parts = [Name::empty(); MAX_DEPTH];
        let mut depth: usize = 0;
        let mut idx = dir;
        assert(reversed_names(parts@, 0) =~= Seq::<Seq<u8>>::empty());
        while idx != 0 && depth < MAX_DEPTH
            invariant
                self.wf(),
                t == self@,
                well_formed(t),
                idx < t.len(),
                depth <= MAX_DEPTH,
                path_of(t, dir as int, MAX_DEPTH as nat) == path_of(
                    t,
                    idx as int,
                    (MAX_DEPTH - depth) as nat,
                ) + reversed_names(parts@, depth as int),
            decreases MAX_DEPTH - depth,
        {
            let d = self.dir(idx);
            let ghost before = parts@;
            let ghost up = parent_or_root(t, idx as int);
            assert(dir_well_formed(t, idx as int));
            parts[depth] = d.name();
            let parent = match d.parent() {
                Some(p) => p,
                None => 0,
            };
            proof {
                let rest = path_of(t, up, (MAX_DEPTH - depth - 1) as nat);
                let old_tail = reversed_names(before, depth as int);
                let new_tail = reversed_names(parts@, depth + 1);
                assert(path_of(t, idx as int, (MAX_DEPTH - depth) as nat) == rest.push(
                    t[idx as int].name,
                ));
                assert(new_tail =~= seq![t[idx as int].name] + old_tail);
                assert(rest.push(t[idx as int].name) + old_tail =~= rest + new_tail);
            }
            depth += 1;
            idx = parent;
        }
        proof {
            assert(path_of(t, idx as int, (MAX_DEPTH - depth) as nat) =~= Seq::<Seq<u8>>::empty());
            assert(path_of(t, dir as int, MAX_DEPTH as nat) =~= reversed_names(
                parts@,
                depth as int,
            ));
        }
        (parts, depth)
    }

    /// The names on the way from the root down to `dir`, the root's own left
    /// out. Of a directory more than `MAX_DEPTH` levels down, only the last
    /// `MAX_DEPTH` names are returned.
    pub fn path_of(&self, dir: usize) -> (r: Vec<Name>)
        requires
            self.wf(),
            dir < self@.len(),
        ensures
            names_view(r@) == path_of(self@, dir as int, MAX_DEPTH as nat),
            r@.len() <= MAX_DEPTH,
    {
        proof {
            lemma_path_len(self@, dir as int, MAX_DEPTH as nat);
        }
        let (parts, depth) = self.ancestors(dir);
        let ghost path = reversed_names(parts@, depth as int);
        let mut out: Vec<Name> = Vec::new();
        let mut i = depth;
        while i > 0
            invariant
                i <= depth <= MAX_DEPTH,
                path == reversed_names(parts@, depth as int),
                out@.len() == depth - i,
                names_view(out@) == path.take(depth - i),
            decreases i,
        {
            let ghost before = out@;
            i -= 1;
            out.push(parts[i]);
            proof {
                let want = path.take(depth - i);
                assert forall|j: int| 0 <= j < want.len() implies names_view(out@)[j]
                    == want[j] by {
                    if j < want.len() - 1 {
                        assert(names_view(before)[j] == path.take(depth - i - 1)[j]);
                        assert(out@[j] == before[j]);
                    }
                }
                assert(names_view(out@) =~= want);
            }
        }
        assert(path.take(depth as int) =~= path);
        out
    }

    /// Writes the prompt for directory `idx` to the front of `buf` and returns
    /// its length. The prompt is the path from the root, `/` between the
    /// names, then `> `. Wherever path and marker fit `buf` the prompt is
    /// exactly them; what does not fit is left out as `prompt` says.
    pub fn build_path(&self, idx: usize, buf: &mut [u8]) -> (n: usize)
        requires
            self.wf(),
            idx < self@.len(),
            old(buf)@.len() >= 1,
        ensures
            final(buf)@.len() == old(buf)@.len(),
            n <= final(buf)@.len(),
            final(buf)@.take(n as int) == prompt(
                path_of(self@, idx as int, MAX_DEPTH as nat),
                old(buf)@.len() as int,
            ),
    {
        let (parts, depth) = self.ancestors(idx);
        let cap = buf.len();
        let ghost path = reversed_names(parts@, depth as int);
        buf[0] = '/' as u8;
        let mut pos: usize = 1;
        let mut i = depth;
        assert(path.take(0) =~= Seq::<Seq<u8>>::empty());
        assert(buf@.take(1) =~= seq![separator()]);
        while i > 0
            invariant
                i <= depth <= MAX_DEPTH,
                path == reversed_names(parts@, depth as int),
                cap == buf@.len(),
                cap == old(buf)@.len(),
                1 <= pos <= cap,
                buf@.take(pos as int) == joined(path.take(depth - i), cap as int),
            decreases i,
        {
            i -= 1;
            let name = parts[i].as_bytes();
            let name_len = name.len();
            let ghost before = buf@;
            let ghost done = path.take(depth - i - 1);
            let ghost next = path.take(depth - i);
            proof {
                parts@[i as int].lemma_bounds();
                assert(next.drop_last() =~= done);
                assert(next.last() == name@);
            }
            if name_len > 0 && name_len < cap - pos {
                copy_at(buf, pos, name);
                pos += name_len;
                buf[pos] = '/' as u8;
                pos += 1;
                assert(buf@.take(pos as int) =~= before.take(pos - name_len - 1) + name@
                    + seq![separator()]);
            }
        }
        assert(path.take(depth as int) =~= path);
        proof {
            lemma_joined_bounds(path, cap as int);
        }
        let ghost whole = buf@.take(pos as int);
        if pos > 1 {
            pos -= 1;
        }
        assert(buf@.take(pos as int) =~= prompt_body(path, cap as int));
        if 2 <= cap - pos {
            let ghost before = buf@;
            buf[pos] = '>' as u8;
            buf[pos + 1] = ' ' as u8;
            pos += 2;
            assert(buf@.take(pos as int) =~= before.take(pos - 2) + marker());
        }
        pos
    }
}

} // verus!
