use vstd::prelude::*;

use crate::text::string_of;

verus! {

/// The four kinds of working-tree change that a record counts.
#[derive(Clone, Copy, Debug, PartialEq, Eq, Structural)]
pub enum ChangeKind {
    New,
    Added,
    Modified,
    Deleted,
}

/// Splitting text at line feeds: the finished lines, and the line still open.
pub open spec fn scan_lines(t: Seq<char>) -> (Seq<Seq<char>>, Seq<char>)
    decreases t.len(),
{
    if t.len() == 0 {
        (Seq::empty(), Seq::empty())
    } else {
        let prev = scan_lines(t.drop_last());
        if t.last() == '\n' {
            (prev.0.push(prev.1), Seq::empty())
        } else {
            (prev.0, prev.1.push(t.last()))
        }
    }
}

/// The lines of a text: split at each line feed, with a last line that is
/// not empty kept even without a line feed after it.
pub open spec fn lines_of(t: Seq<char>) -> Seq<Seq<char>> {
    let s = scan_lines(t);
    if s.1.len() > 0 {
        s.0.push(s.1)
    } else {
        s.0
    }
}

pub open spec fn line_models(v: Seq<Vec<char>>) -> Seq<Seq<char>> {
    v.map_values(|l: Vec<char>| l@)
}

proof fn lemma_scan_len(t: Seq<char>)
    ensures
        scan_lines(t).0.len() + scan_lines(t).1.len() <= t.len(),
    decreases t.len(),
{
    if t.len() > 0 {
        lemma_scan_len(t.drop_last());
    }
}

/// A text has no more lines than characters.
pub proof fn lemma_lines_len(t: Seq<char>)
    ensures
        lines_of(t).len() <= t.len(),
{
    lemma_scan_len(t);
}

/// The lines of `text`, as `lines_of` states them.
pub fn split_lines(text: &Vec<char>) -> (r: Vec<Vec<char>>)
    ensures
        line_models(r@) == lines_of(text@),
{
    let mut done: Vec<Vec<char>> = Vec::new();
    let mut cur: Vec<char> = Vec::new();
    let mut i: usize = 0;
    while i < text.len()
        invariant
            i <= text.len(),
            (line_models(done@), cur@) == scan_lines(text@.take(i as int)),
        decreases text.len() - i,
    {
        let c = text[i];
        assert(text@.take(i + 1).drop_last() == text@.take(i as int));
        if c == '\n' {
            let line = cur;
            cur = Vec::new();
            done.push(line);
            assert(line_models(done@) == scan_lines(text@.take(i + 1)).0);
        } else {
            cur.push(c);
        }
        i += 1;
    }
    assert(text@.take(text.len() as int) == text@);
    if cur.len() > 0 {
        done.push(cur);
        assert(line_models(done@) == lines_of(text@));
    }
    done
}

/// The category of a two-character status code; the first row of the table
/// that matches wins.
pub open spec fn code_kind(x: char, y: char) -> Option<ChangeKind> {
    if x == '?' && y == '?' {
        Some(ChangeKind::New)
    } else if x == 'A' || y == 'A' {
        Some(ChangeKind::Added)
    } else if x == 'M' || y == 'M' {
        Some(ChangeKind::Modified)
    } else if x == 'D' || y == 'D' {
        Some(ChangeKind::Deleted)
    } else {
        None
    }
}

/// The category of the two-character status code `x`, `y`, if it has one.
pub fn classify_code(x: char, y: char) -> (r: Option<ChangeKind>)
    ensures
        r == code_kind(x, y),
{
    if x == '?' && y == '?' {
        Some(ChangeKind::New)
    } else if x == 'A' || y == 'A' {
        Some(ChangeKind::Added)
    } else if x == 'M' || y == 'M' {
        Some(ChangeKind::Modified)
    } else if x == 'D' || y == 'D' {
        Some(ChangeKind::Deleted)
    } else {
        None
    }
}

/// One short-status line: a two-character code, a separator, then the path.
pub open spec fn line_entry(line: Seq<char>) -> Option<(ChangeKind, Seq<char>)> {
    if line.len() >= 3 {
        match code_kind(line[0], line[1]) {
            Some(k) => Some((k, line.skip(3))),
            None => None,
        }
    } else {
        None
    }
}

/// The paths of each category, in the order of the status lines.
pub struct Tally {
    pub new: Seq<Seq<char>>,
    pub added: Seq<Seq<char>>,
    pub modified: Seq<Seq<char>>,
    pub deleted: Seq<Seq<char>>,
}

impl Tally {
    pub open spec fn empty() -> Tally {
        Tally { new: Seq::empty(), added: Seq::empty(), modified: Seq::empty(), deleted: Seq::empty() }
    }

    pub open spec fn size(self) -> nat {
        self.new.len() + self.added.len() + self.modified.len() + self.deleted.len()
    }

    pub open spec fn add_line(self, line: Seq<char>) -> Tally {
        match line_entry(line) {
            Some((ChangeKind::New, p)) => Tally { new: self.new.push(p), ..self },
            Some((ChangeKind::Added, p)) => Tally { added: self.added.push(p), ..self },
            Some((ChangeKind::Modified, p)) => Tally { modified: self.modified.push(p), ..self },
            Some((ChangeKind::Deleted, p)) => Tally { deleted: self.deleted.push(p), ..self },
            None => self,
        }
    }
}

/// The entries of a sequence of status lines, line by line.
pub open spec fn tally_lines(lines: Seq<Seq<char>>) -> Tally
    decreases lines.len(),
{
    if lines.len() == 0 {
        Tally::empty()
    } else {
        tally_lines(lines.drop_last()).add_line(lines.last())
    }
}

/// The entries of a whole short-status text.
pub open spec fn tally_of(text: Seq<char>) -> Tally {
    tally_lines(lines_of(text))
}

proof fn lemma_tally_size(lines: Seq<Seq<char>>)
    ensures
        tally_lines(lines).size() <= lines.len(),
    decreases lines.len(),
{
    if lines.len() > 0 {
        lemma_tally_size(lines.drop_last());
    }
}

/// One status line gives at most one entry: `??` one new path; `A` in either
/// column one added path; `M` in either column, without an `A`, one modified
/// path; `D` in either column, without an `A` or `M`, one deleted path; any
/// other code nothing.
pub proof fn lemma_status_line_kinds(line: Seq<char>)
    requires
        line.len() >= 3,
    ensures
        ({
            let t = tally_lines(seq![line]);
            let x = line[0];
            let y = line[1];
            let p = seq![line.skip(3)];
            &&& (x == '?' && y == '?') ==> t.new == p && t.added.len() == 0 && t.modified.len() == 0
                && t.deleted.len() == 0
            &&& (x == 'A' || y == 'A') ==> t.added == p && t.new.len() == 0 && t.modified.len() == 0
                && t.deleted.len() == 0
            &&& ((x == 'M' || y == 'M') && x != 'A' && y != 'A') ==> t.modified == p && t.new.len()
                == 0 && t.added.len() == 0 && t.deleted.len() == 0
            &&& ((x == 'D' || y == 'D') && x != 'A' && y != 'A' && x != 'M' && y != 'M') ==> t.deleted
                == p && t.new.len() == 0 && t.added.len() == 0 && t.modified.len() == 0
            &&& code_kind(x, y) is None ==> t.size() == 0
        }),
{
    assert(seq![line].drop_last() =~= Seq::<Seq<char>>::empty());
    assert(seq![line].last() == line);
    assert(tally_lines(Seq::<Seq<char>>::empty()) == Tally::empty());
    assert(tally_lines(seq![line]) == Tally::empty().add_line(line));
    assert(Seq::<Seq<char>>::empty().push(line.skip(3)) =~= seq![line.skip(3)]);
}

/// The changed paths of a status text, one list per category.
pub struct ChangeLists {
    pub new: Vec<String>,
    pub added: Vec<String>,
    pub modified: Vec<String>,
    pub deleted: Vec<String>,
}

pub open spec fn string_models(v: Seq<String>) -> Seq<Seq<char>> {
    v.map_values(|s: String| s@)
}

impl View for ChangeLists {
    type V = Tally;

    open spec fn view(&self) -> Tally {
        Tally {
            new: string_models(self.new@),
            added: string_models(self.added@),
            modified: string_models(self.modified@),
            deleted: string_models(self.deleted@),
        }
    }
}

/// The characters of `line` from index `from` on.
fn tail_string(line: &Vec<char>, from: usize) -> (r: String)
    requires
        from <= line.len(),
    ensures
        r@ == line@.skip(from as int),
{
    let mut cs: Vec<char> = Vec::new();
    let mut i: usize = from;
    while i < line.len()
        invariant
            from <= i <= line.len(),
            cs@ == line@.subrange(from as int, i as int),
        decreases line.len() - i,
    {
        cs.push(line[i]);
        i += 1;
    }
    string_of(&cs)
}

/// Sorts the lines of a short-status text into the four categories; lines
/// with another code, or too short to hold one, are left out.
pub fn parse_status(text: &str) -> (r: ChangeLists)
    ensures
        r@ == tally_of(text@),
        r@.size() <= text@.len(),
        r@.size() <= usize::MAX,
{
    let chars = crate::text::chars_of(text);
    let lines = split_lines(&chars);
    let mut r = ChangeLists { new: Vec::new(), added: Vec::new(), modified: Vec::new(), deleted: Vec::new() };
    assert(string_models(r.new@) =~= Seq::<Seq<char>>::empty());
    assert(string_models(r.added@) =~= Seq::<Seq<char>>::empty());
    assert(string_models(r.modified@) =~= Seq::<Seq<char>>::empty());
    assert(string_models(r.deleted@) =~= Seq::<Seq<char>>::empty());
    assert(line_models(lines@).take(0) =~= Seq::<Seq<char>>::empty());
    let mut i: usize = 0;
    while i < lines.len()
        invariant
            i <= lines.len(),
            r@ == tally_lines(line_models(lines@).take(i as int)),
        decreases lines.len() - i,
    {
        let line = &lines[i];
        assert(line_models(lines@).take(i + 1).drop_last() == line_models(lines@).take(i as int));
        assert(line_models(lines@).take(i + 1).last() == line@);
        if line.len() >= 3 {
            let kind = classify_code(line[0], line[1]);
            match kind {
                Some(ChangeKind::New) => r.new.push(tail_string(line, 3)),
                Some(ChangeKind::Added) => r.added.push(tail_string(line, 3)),
                Some(ChangeKind::Modified) => r.modified.push(tail_string(line, 3)),
                Some(ChangeKind::Deleted) => r.deleted.push(tail_string(line, 3)),
                None => {},
            }
            assert(string_models(r.new@) == tally_lines(line_models(lines@).take(i + 1)).new);
            assert(string_models(r.added@) == tally_lines(line_models(lines@).take(i + 1)).added);
            assert(string_models(r.modified@) == tally_lines(line_models(lines@).take(i + 1)).modified);
            assert(string_models(r.deleted@) == tally_lines(line_models(lines@).take(i + 1)).deleted);
        }
        i += 1;
    }
    assert(line_models(lines@).take(lines.len() as int) == lines_of(text@));
    proof {
        lemma_tally_size(lines_of(text@));
        lemma_lines_len(text@);
        assert(chars@.len() == chars.len());
    }
    r
}

} // verus!
