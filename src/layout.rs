use vstd::prelude::*;

use crate::order::models;
use crate::printer::{summary, Printer};
use crate::reader::{RepoInfo, RepoModel, TrackerModel};
use crate::text::{copy_str, decimal, push_decimal, push_str};
use crate::tui::{changed_count, clean_count, estimated_rows, row_count, App};

verus! {

/// Lines that a panel takes: name, branch and borders, then one line of
/// changes, or in the verbose layout one line per category with changes.
pub open spec fn repo_height(m: RepoModel, verbose: bool) -> nat {
    4 + if m.has_changes() && verbose {
        (if m.new_files.amount > 0 { 1nat } else { 0nat }) + (if m.added_files.amount > 0 {
            1nat
        } else {
            0nat
        }) + (if m.modified_files.amount > 0 { 1nat } else { 0nat }) + (if m.deleted_files.amount
            > 0 {
            1nat
        } else {
            0nat
        })
    } else {
        1nat
    }
}

pub fn calculate_repo_height(repo: &RepoInfo, verbose: bool) -> (r: u16)
    ensures
        r == repo_height(repo@, verbose),
{
    let mut height: u16 = 4;
    if repo.has_changes() && verbose {
        if repo.new_files.amount > 0 {
            height += 1;
        }
        if repo.added_files.amount > 0 {
            height += 1;
        }
        if repo.modified_files.amount > 0 {
            height += 1;
        }
        if repo.deleted_files.amount > 0 {
            height += 1;
        }
    } else {
        height += 1;
    }
    height
}

/// The positions of the records with changes, in order.
pub open spec fn changed_positions(s: Seq<RepoModel>) -> Seq<int>
    decreases s.len(),
{
    if s.len() == 0 {
        Seq::empty()
    } else if s.last().has_changes() {
        changed_positions(s.drop_last()).push(s.len() - 1)
    } else {
        changed_positions(s.drop_last())
    }
}

/// The positions of the records without changes, in order.
pub open spec fn clean_positions(s: Seq<RepoModel>) -> Seq<int>
    decreases s.len(),
{
    if s.len() == 0 {
        Seq::empty()
    } else if !s.last().has_changes() {
        clean_positions(s.drop_last()).push(s.len() - 1)
    } else {
        clean_positions(s.drop_last())
    }
}

pub open spec fn usize_models(v: Seq<usize>) -> Seq<int> {
    v.map_values(|x: usize| x as int)
}

pub open spec fn u16_models(v: Seq<u16>) -> Seq<nat> {
    v.map_values(|x: u16| x as nat)
}

proof fn lemma_positions_len(s: Seq<RepoModel>)
    ensures
        changed_positions(s).len() == changed_count(s),
        clean_positions(s).len() == clean_count(s),
        changed_count(s) <= s.len(),
    decreases s.len(),
{
    if s.len() > 0 {
        lemma_positions_len(s.drop_last());
    }
}

/// The tallest panel among positions `lo` up to `hi` of `h`, and at least 3.
pub open spec fn cell_max(h: Seq<nat>, lo: int, hi: int) -> nat
    decreases hi - lo,
{
    if lo >= hi || lo >= h.len() || lo < 0 {
        3
    } else {
        let rest = cell_max(h, lo + 1, hi);
        if h[lo] > rest {
            h[lo]
        } else {
            rest
        }
    }
}

/// How many rows of `cols` panels, from position `start` on, fit one below
/// the other in `budget` lines.
pub open spec fn rows_fitting(h: Seq<nat>, cols: nat, start: int, budget: int) -> nat
    decreases h.len() - start,
{
    if cols == 0 || start >= h.len() || start < 0 {
        0
    } else {
        let rh = cell_max(h, start, start + cols);
        if rh > budget {
            0
        } else if start + cols >= h.len() {
            1
        } else {
            1 + rows_fitting(h, cols, start + cols, budget - rh)
        }
    }
}

/// The height of row `row` of a grid of `cols` columns over the panel
/// heights `heights`.
pub fn row_height(heights: &Vec<u16>, cols: usize, row: usize) -> (r: u16)
    requires
        cols > 0,
    ensures
        r == cell_max(u16_models(heights@), row * cols, row * cols + cols),
{
    let ghost h = u16_models(heights@);
    let start = match row.checked_mul(cols) {
        Some(s) => s,
        None => heights.len(),
    };
    if start >= heights.len() {
        return 3;
    }
    let end = if cols < heights.len() - start {
        start + cols
    } else {
        heights.len()
    };
    assert(cell_max(h, end as int, row * cols + cols) == 3);
    let mut best: u16 = 3;
    let mut i: usize = end;
    while i > start
        invariant
            start <= i <= end <= heights.len(),
            end == heights.len() || end == row * cols + cols,
            end <= row * cols + cols,
            h.len() == heights.len(),
            start == row * cols,
            h == u16_models(heights@),
            best == cell_max(h, i as int, row * cols + cols),
        decreases i,
    {
        i -= 1;
        assert(h[i as int] == heights@[i as int] as nat);
        assert(cell_max(h, i as int, row * cols + cols) == if h[i as int] > cell_max(h, i + 1, row * cols + cols) {
            h[i as int]
        } else {
            cell_max(h, i + 1, row * cols + cols)
        });
        if heights[i] > best {
            best = heights[i];
        }
    }
    best
}

/// How many rows of the grid, from row `first_row` on, fit in
/// `available_height` lines.
pub fn visible_rows(heights: &Vec<u16>, cols: usize, first_row: usize, available_height: usize) -> (r: usize)
    requires
        cols > 0,
    ensures
        r == rows_fitting(u16_models(heights@), cols as nat, first_row * cols, available_height as int),
{
    let ghost h = u16_models(heights@);
    let ghost target = rows_fitting(h, cols as nat, first_row * cols, available_height as int);
    let mut start: usize = match first_row.checked_mul(cols) {
        Some(s) => s,
        None => heights.len(),
    };
    if start >= heights.len() {
        return 0;
    }
    let mut row = first_row;
    let mut budget = available_height;
    let mut n: usize = 0;
    let mut fits = true;
    while fits && start < heights.len()
        invariant
            h == u16_models(heights@),
            cols > 0,
            start <= heights.len(),
            n <= start,
            start < heights.len() ==> start == row * cols,
            start >= heights.len() ==> n == target,
            !fits ==> n == target,
            fits && start < heights.len() ==> n + rows_fitting(h, cols as nat, start as int, budget as int) == target,
        decreases heights.len() - start + (if fits { 1int } else { 0int }),
    {
        let rh = row_height(heights, cols, row);
        if (rh as usize) > budget {
            fits = false;
        } else {
            budget -= rh as usize;
            n += 1;
            if cols < heights.len() - start {
                assert(row <= start) by (nonlinear_arith)
                    requires
                        start == row * cols,
                        cols > 0,
                ;
                start += cols;
                row += 1;
                assert(start == row * cols) by (nonlinear_arith)
                    requires
                        start == (row - 1) * cols + cols,
                ;
            } else {
                start = heights.len();
            }
        }
    }
    n
}

/// The text of the title bar.
pub open spec fn title(
    m: Seq<RepoModel>,
    loading: bool,
    total_found: nat,
    scroll_offset: nat,
    failed: nat,
    cols: nat,
    height: nat,
) -> Seq<char> {
    let head = if loading {
        "Repolice - Loading repositories... ("@ + decimal(total_found) + " found)"@
    } else if row_count(changed_count(m), cols) > estimated_rows(height) {
        "Repolice - Repos with changes (Scroll: "@ + decimal(scroll_offset + 1) + "/"@ + decimal(
            row_count(changed_count(m), cols),
        ) + ")"@
    } else {
        "Repolice ("@ + decimal(changed_count(m)) + " with changes, "@ + decimal(clean_count(m))
            + " clean)"@
    };
    if failed > 0 {
        head + " ("@ + decimal(failed) + " failed)"@
    } else {
        head
    }
}

/// The key help line.
pub open spec fn instructions(m: Seq<RepoModel>, cols: nat, height: nat) -> Seq<char> {
    let scrolls = row_count(changed_count(m), cols) > estimated_rows(height);
    if clean_count(m) == 0 {
        if scrolls {
            "Press ↑/↓ to scroll, 'q' to quit"@
        } else {
            "Press 'q' to quit"@
        }
    } else if scrolls {
        "Press ↑/↓ to scroll repos, ←/→ to scroll clean repos, 'q' to quit"@
    } else {
        "Press ←/→ to scroll clean repos, 'q' to quit"@
    }
}

/// How many clean records the strip shows at a width of `width` columns.
pub open spec fn clean_capacity(width: nat) -> nat {
    if width / 12 > 1 {
        width / 12
    } else {
        1
    }
}

/// How many clean records the strip shows at a width of `width` columns.
pub fn clean_capacity_of(width: usize) -> (r: usize)
    ensures
        r == clean_capacity(width as nat),
        r >= 1,
{
    if width / 12 > 1 {
        width / 12
    } else {
        1
    }
}

/// The part of the list of clean records that the strip shows.
pub open spec fn clean_window(n: nat, offset: nat, width: nat) -> (nat, nat) {
    let lo = if offset < n { offset } else { n };
    let hi = if lo + clean_capacity(width) < n { lo + clean_capacity(width) } else { n };
    (lo, hi)
}

/// The count at the end of the strip of clean records.
pub open spec fn clean_indicator(n: nat, offset: nat, width: nat) -> Seq<char> {
    if n > clean_capacity(width) {
        " ("@ + decimal(clean_window(n, offset, width).1) + "/"@ + decimal(n) + " clean)"@
    } else {
        " ("@ + decimal(n) + " clean)"@
    }
}

/// The lines of changes in a panel.
pub open spec fn category_line(t: TrackerModel) -> Seq<Seq<char>> {
    if t.amount > 0 {
        seq![t.status + ": "@ + decimal(t.amount)]
    } else {
        Seq::empty()
    }
}

/// The lines of a record's panel: name, bracketed branch, then its changes.
pub open spec fn panel_lines(m: RepoModel, verbose: bool) -> Seq<Seq<char>> {
    seq![m.name, "["@ + m.branch + "]"@] + if !m.has_changes() {
        seq!["Nothing new here!"@]
    } else if verbose {
        category_line(m.new_files) + category_line(m.added_files) + category_line(m.modified_files)
            + category_line(m.deleted_files)
    } else {
        seq![summary(m)]
    }
}

pub open spec fn string_lines(v: Seq<String>) -> Seq<Seq<char>> {
    v.map_values(|s: String| s@)
}

fn push_category_line(lines: &mut Vec<String>, t: &crate::reader::FileTracker)
    ensures
        string_lines(final(lines)@) == string_lines(old(lines)@) + category_line(t@),
{
    if t.amount > 0 {
        let mut s = copy_str(t.status.as_str());
        push_str(&mut s, ": ");
        push_decimal(&mut s, t.amount);
        lines.push(s);
        assert(string_lines(lines@) =~= string_lines(old(lines)@) + category_line(t@));
    } else {
        assert(string_lines(old(lines)@) + category_line(t@) =~= string_lines(old(lines)@));
    }
}

/// The lines of the panel of `repo`.
pub fn repo_lines(repo: &RepoInfo, verbose: bool) -> (r: Vec<String>)
    ensures
        string_lines(r@) == panel_lines(repo@, verbose),
{
    let mut lines: Vec<String> = Vec::new();
    lines.push(copy_str(repo.name.as_str()));
    let mut b = copy_str("[");
    push_str(&mut b, repo.branch.as_str());
    push_str(&mut b, "]");
    lines.push(b);
    let ghost head = string_lines(lines@);
    assert(head =~= seq![repo@.name, "["@ + repo@.branch + "]"@]);
    if !repo.has_changes() {
        lines.push(copy_str("Nothing new here!"));
    } else if verbose {
        push_category_line(&mut lines, &repo.new_files);
        push_category_line(&mut lines, &repo.added_files);
        push_category_line(&mut lines, &repo.modified_files);
        push_category_line(&mut lines, &repo.deleted_files);
    } else {
        lines.push(Printer::compact_summary(repo));
    }
    assert(string_lines(lines@) =~= panel_lines(repo@, verbose));
    lines
}

impl App {
    /// The positions in `repos` of the records with changes.
    pub fn changed_indices(&self) -> (r: Vec<usize>)
        ensures
            usize_models(r@) == changed_positions(self@.repos),
    {
        self.positions(true)
    }

    /// The positions in `repos` of the records without changes.
    pub fn clean_indices(&self) -> (r: Vec<usize>)
        ensures
            usize_models(r@) == clean_positions(self@.repos),
    {
        self.positions(false)
    }

    fn positions(&self, changed: bool) -> (r: Vec<usize>)
        ensures
            usize_models(r@) == if changed {
                changed_positions(self@.repos)
            } else {
                clean_positions(self@.repos)
            },
    {
        let ghost s = self@.repos;
        let mut r: Vec<usize> = Vec::new();
        let mut i: usize = 0;
        assert(usize_models(r@) =~= Seq::<int>::empty());
        while i < self.repos.len()
            invariant
                i <= self.repos.len(),
                s == self@.repos,
                usize_models(r@) == if changed {
                    changed_positions(s.take(i as int))
                } else {
                    clean_positions(s.take(i as int))
                },
            decreases self.repos.len() - i,
        {
            assert(s.take(i + 1).drop_last() =~= s.take(i as int));
            assert(s.take(i + 1).last() == self.repos@[i as int]@);
            if self.repos[i].has_changes() == changed {
                let ghost r0 = r@;
                r.push(i);
                assert(usize_models(r@) =~= usize_models(r0).push(i as int));
            }
            i += 1;
        }
        assert(s.take(i as int) =~= s);
        r
    }

    /// The panel heights of the records with changes, in order.
    pub fn changed_heights(&self) -> (r: Vec<u16>)
        ensures
            u16_models(r@) == changed_positions(self@.repos).map_values(
                |k: int| repo_height(self@.repos[k], self.verbose),
            ),
    {
        let idx = self.changed_indices();
        let ghost s = self@.repos;
        proof {
            lemma_positions_bound(s);
        }
        let mut r: Vec<u16> = Vec::new();
        assert(u16_models(r@) =~= changed_positions(s).take(0).map_values(
            |k: int| repo_height(s[k], self.verbose),
        ));
        let mut j: usize = 0;
        while j < idx.len()
            invariant
                j <= idx.len(),
                s == self@.repos,
                usize_models(idx@) == changed_positions(s),
                forall|k: int| 0 <= k < changed_positions(s).len() ==> 0 <= #[trigger] changed_positions(s)[k] < s.len(),
                u16_models(r@) == changed_positions(s).take(j as int).map_values(
                    |k: int| repo_height(s[k], self.verbose),
                ),
            decreases idx.len() - j,
        {
            let k = idx[j];
            assert(usize_models(idx@)[j as int] == k as int);
            assert(changed_positions(s)[j as int] == k as int);
            let h = calculate_repo_height(&self.repos[k], self.verbose);
            assert(self.repos@[k as int]@ == s[k as int]);
            let ghost r0 = r@;
            r.push(h);
            assert(u16_models(r@) =~= u16_models(r0).push(h as nat));
            assert(changed_positions(s).take(j + 1) =~= changed_positions(s).take(j as int).push(k as int));
            assert(u16_models(r@) =~= changed_positions(s).take(j + 1).map_values(
                |k: int| repo_height(s[k], self.verbose),
            ));
            j += 1;
        }
        assert(changed_positions(s).take(j as int) =~= changed_positions(s));
        r
    }

    /// The text of the title bar, with the count of failed probes where
    /// there are any.
    pub fn title_text(&self, cols: usize, available_height: usize) -> (r: String)
        requires
            cols > 0,
            self.scroll_offset < usize::MAX,
        ensures
            r@ == title(self@.repos, self.loading, self.total_found as nat, self.scroll_offset as nat, self.failed as nat, cols as nat, available_height as nat),
    {
        let mut s = String::new();
        let changed = self.changed_repos();
        proof {
            lemma_positions_len(self@.repos);
        }
        let rows = crate::tui::rows_for(changed, cols);
        let est = if available_height / 6 > 1 { available_height / 6 } else { 1 };
        if self.loading {
            push_str(&mut s, "Repolice - Loading repositories... (");
            push_decimal(&mut s, self.total_found);
            push_str(&mut s, " found)");
        } else if rows > est {
            push_str(&mut s, "Repolice - Repos with changes (Scroll: ");
            push_decimal(&mut s, self.scroll_offset + 1);
            push_str(&mut s, "/");
            push_decimal(&mut s, rows);
            push_str(&mut s, ")");
        } else {
            push_str(&mut s, "Repolice (");
            push_decimal(&mut s, changed);
            push_str(&mut s, " with changes, ");
            push_decimal(&mut s, self.repos.len() - changed);
            push_str(&mut s, " clean)");
        }
        if self.failed > 0 {
            push_str(&mut s, " (");
            push_decimal(&mut s, self.failed);
            push_str(&mut s, " failed)");
        }
        assert(s@ =~= title(self@.repos, self.loading, self.total_found as nat, self.scroll_offset as nat, self.failed as nat, cols as nat, available_height as nat));
        s
    }

    /// The key help line.
    pub fn instruction_text(&self, cols: usize, available_height: usize) -> (r: String)
        requires
            cols > 0,
        ensures
            r@ == instructions(self@.repos, cols as nat, available_height as nat),
    {
        let changed = self.changed_repos();
        let rows = crate::tui::rows_for(changed, cols);
        let est = if available_height / 6 > 1 { available_height / 6 } else { 1 };
        let scrolls = rows > est;
        if self.repos.len() - changed == 0 {
            if scrolls {
                copy_str("Press ↑/↓ to scroll, 'q' to quit")
            } else {
                copy_str("Press 'q' to quit")
            }
        } else if scrolls {
            copy_str("Press ↑/↓ to scroll repos, ←/→ to scroll clean repos, 'q' to quit")
        } else {
            copy_str("Press ←/→ to scroll clean repos, 'q' to quit")
        }
    }

    /// The part of the clean records, by their place among the clean ones,
    /// that the strip shows at a terminal width of `width`.
    pub fn clean_range(&self, width: usize) -> (r: (usize, usize))
        ensures
            (r.0 as nat, r.1 as nat) == clean_window(clean_count(self@.repos), self.clean_scroll_offset as nat, width as nat),
    {
        let n = self.repos.len() - self.changed_repos();
        let cap = clean_capacity_of(width);
        let lo = if self.clean_scroll_offset < n { self.clean_scroll_offset } else { n };
        let hi = if cap < n - lo { lo + cap } else { n };
        (lo, hi)
    }

    /// The count at the end of the strip of clean records.
    pub fn clean_indicator_text(&self, width: usize) -> (r: String)
        ensures
            r@ == clean_indicator(clean_count(self@.repos), self.clean_scroll_offset as nat, width as nat),
    {
        let n = self.repos.len() - self.changed_repos();
        let cap = clean_capacity_of(width);
        let mut s = copy_str(" (");
        if n > cap {
            let (_, hi) = self.clean_range(width);
            push_decimal(&mut s, hi);
            push_str(&mut s, "/");
        }
        push_decimal(&mut s, n);
        push_str(&mut s, " clean)");
        assert(s@ =~= clean_indicator(clean_count(self@.repos), self.clean_scroll_offset as nat, width as nat));
        s
    }
}

proof fn lemma_positions_bound(s: Seq<RepoModel>)
    ensures
        forall|k: int| 0 <= k < changed_positions(s).len() ==> 0 <= #[trigger] changed_positions(s)[k] < s.len(),
    decreases s.len(),
{
    if s.len() > 0 {
        let d = s.drop_last();
        lemma_positions_bound(d);
        let p = changed_positions(s);
        assert forall|k: int| 0 <= k < p.len() implies 0 <= #[trigger] p[k] < s.len() by {
            if k < changed_positions(d).len() {
                assert(p[k] == changed_positions(d)[k]);
            }
        }
    }
}

} // verus!
