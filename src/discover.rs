use vstd::prelude::*;

use crate::reader::Reader;
use crate::status::{line_models, lines_of, split_lines, string_models};
use crate::text::{chars_of, string_of};

verus! {

/// The metadata folder that marks a repository root, as the last segment of
/// a listed path.
pub open spec fn metadata_suffix() -> Seq<char> {
    "/.git"@
}

/// The repository root of a listed metadata folder.
pub open spec fn repo_root_of(line: Seq<char>) -> Option<Seq<char>> {
    let k = metadata_suffix().len();
    if line.len() >= k && line.skip(line.len() - k) == metadata_suffix() {
        Some(line.take(line.len() - k))
    } else {
        None
    }
}

/// The number of non-empty `/`-separated segments of a path.
pub open spec fn segments(p: Seq<char>) -> nat
    decreases p.len(),
{
    if p.len() == 0 {
        0
    } else {
        segments(p.drop_last()) + if p.last() != '/' && (p.len() == 1 || p[p.len() - 2] == '/') {
            1nat
        } else {
            0nat
        }
    }
}

/// Whether a repository root lies at most `max_depth` levels below `root`.
pub open spec fn within_depth(root: Seq<char>, p: Seq<char>, max_depth: nat) -> bool {
    segments(p) <= segments(root) + max_depth
}

/// The repository roots of the lines of a listing, in order.
pub open spec fn roots_in(root: Seq<char>, lines: Seq<Seq<char>>, max_depth: nat) -> Seq<Seq<char>>
    decreases lines.len(),
{
    if lines.len() == 0 {
        Seq::empty()
    } else {
        let prev = roots_in(root, lines.drop_last(), max_depth);
        match repo_root_of(lines.last()) {
            Some(p) => if within_depth(root, p, max_depth) {
                prev.push(p)
            } else {
                prev
            },
            None => prev,
        }
    }
}

fn count_segments(p: &Vec<char>, len: usize) -> (r: usize)
    requires
        len <= p.len(),
    ensures
        r == segments(p@.take(len as int)),
        r <= len,
{
    let mut n: usize = 0;
    let mut i: usize = 0;
    assert(p@.take(0) =~= Seq::<char>::empty());
    while i < len
        invariant
            i <= len <= p.len(),
            n <= i,
            n == segments(p@.take(i as int)),
        decreases len - i,
    {
        let ghost t = p@.take(i + 1);
        assert(t.drop_last() =~= p@.take(i as int));
        assert(t.last() == p@[i as int]);
        if i > 0 {
            assert(t[t.len() - 2] == p@[i - 1]);
        }
        if p[i] != '/' && (i == 0 || p[i - 1] == '/') {
            n += 1;
        }
        i += 1;
    }
    n
}

impl Reader {
    /// The repository roots in a listing of metadata folders under `root`,
    /// one path per line, that lie at most `max_depth` levels below `root`.
    pub fn discover(root: &str, listing: &str, max_depth: usize) -> (r: Vec<String>)
        ensures
            string_models(r@) == roots_in(root@, lines_of(listing@), max_depth as nat),
    {
        let rc = chars_of(root);
        let root_depth = count_segments(&rc, rc.len());
        assert(rc@.take(rc.len() as int) =~= root@);
        let suffix = chars_of("/.git");
        let text = chars_of(listing);
        let lines = split_lines(&text);
        let ghost ls = line_models(lines@);
        let mut r: Vec<String> = Vec::new();
        let mut i: usize = 0;
        assert(string_models(r@) =~= Seq::<Seq<char>>::empty());
        while i < lines.len()
            invariant
                i <= lines.len(),
                ls == line_models(lines@),
                ls == lines_of(listing@),
                suffix@ == metadata_suffix(),
                root_depth == segments(root@),
                string_models(r@) == roots_in(root@, ls.take(i as int), max_depth as nat),
            decreases lines.len() - i,
        {
            let line = &lines[i];
            assert(ls.take(i + 1).drop_last() =~= ls.take(i as int));
            assert(ls.take(i + 1).last() == line@);
            let k = suffix.len();
            if line.len() >= k {
                let base = line.len() - k;
                let mut same = true;
                let mut j: usize = 0;
                assert(line@.subrange(base as int, base as int) =~= suffix@.take(0));
                while j < k
                    invariant
                        k == suffix.len(),
                        base + k == line.len(),
                        j <= k,
                        same <==> line@.subrange(base as int, base + j) == suffix@.take(j as int),
                    decreases k - j,
                {
                    let ghost a = line@.subrange(base as int, base + j);
                    let ghost b = suffix@.take(j as int);
                    assert(line@.subrange(base as int, base + j + 1) == a.push(line@[base + j]));
                    assert(suffix@.take(j + 1) == b.push(suffix@[j as int]));
                    assert(a.push(line@[base + j]).drop_last() =~= a);
                    assert(b.push(suffix@[j as int]).drop_last() =~= b);
                    assert(a.push(line@[base + j]).last() == line@[base + j]);
                    if line[base + j] != suffix[j] {
                        same = false;
                    }
                    j += 1;
                }
                assert(line@.subrange(base as int, base + k) =~= line@.skip(base as int));
                assert(suffix@.take(k as int) =~= suffix@);
                if same {
                    let depth = count_segments(line, base);
                    if depth <= root_depth || depth - root_depth <= max_depth {
                        let mut cs: Vec<char> = Vec::new();
                        let mut q: usize = 0;
                        while q < base
                            invariant
                                q <= base,
                                base <= line.len(),
                                cs@ == line@.take(q as int),
                            decreases base - q,
                        {
                            assert(line@.take(q + 1) == line@.take(q as int).push(line@[q as int]));
                            cs.push(line[q]);
                            q += 1;
                        }
                        let ghost r0 = r@;
                        r.push(string_of(&cs));
                        assert(string_models(r@) =~= string_models(r0).push(line@.take(base as int)));
                    }
                }
            }
            i += 1;
        }
        assert(ls.take(i as int) =~= ls);
        r
    }
}

} // verus!
