use vstd::prelude::*;

use crate::order::{all_wf, insert_sorted, models, sort_spec};
use crate::status::{parse_status, string_models, tally_of, Tally};
use crate::text::{chars_of, copy_str, string_of};

verus! {

/// One category of changes of a repository: a label, a count and, when the
/// probe was verbose, the paths themselves.
#[derive(Clone)]
pub struct FileTracker {
    pub status: String,
    pub amount: usize,
    pub files: Option<Vec<String>>,
}

pub struct TrackerModel {
    pub status: Seq<char>,
    pub amount: nat,
    pub files: Option<Seq<Seq<char>>>,
}

impl View for FileTracker {
    type V = TrackerModel;

    open spec fn view(&self) -> TrackerModel {
        TrackerModel {
            status: self.status@,
            amount: self.amount as nat,
            files: match self.files {
                Some(v) => Some(string_models(v@)),
                None => None,
            },
        }
    }
}

impl TrackerModel {
    /// A list of paths, where there is one, has as many entries as the count.
    pub open spec fn wf(self) -> bool {
        self.files matches Some(f) ==> f.len() == self.amount
    }
}

impl FileTracker {
    pub fn new(status: &str, amount: usize, files: Option<Vec<String>>) -> (r: FileTracker)
        requires
            files matches Some(f) ==> f.len() == amount,
        ensures
            r@.status == status@,
            r.amount == amount,
            r.files == files,
            r@.wf(),
    {
        FileTracker { status: copy_str(status), amount, files }
    }
}

/// The working-tree status of one repository.
#[derive(Clone)]
pub struct RepoInfo {
    pub name: String,
    pub path: String,
    pub branch: String,
    pub new_files: FileTracker,
    pub added_files: FileTracker,
    pub modified_files: FileTracker,
    pub deleted_files: FileTracker,
}

pub struct RepoModel {
    pub name: Seq<char>,
    pub path: Seq<char>,
    pub branch: Seq<char>,
    pub new_files: TrackerModel,
    pub added_files: TrackerModel,
    pub modified_files: TrackerModel,
    pub deleted_files: TrackerModel,
}

impl View for RepoInfo {
    type V = RepoModel;

    open spec fn view(&self) -> RepoModel {
        RepoModel {
            name: self.name@,
            path: self.path@,
            branch: self.branch@,
            new_files: self.new_files@,
            added_files: self.added_files@,
            modified_files: self.modified_files@,
            deleted_files: self.deleted_files@,
        }
    }
}

impl RepoModel {
    pub open spec fn has_changes(self) -> bool {
        self.new_files.amount > 0 || self.added_files.amount > 0 || self.modified_files.amount > 0
            || self.deleted_files.amount > 0
    }

    pub open spec fn total_changes(self) -> nat {
        self.new_files.amount + self.added_files.amount + self.modified_files.amount
            + self.deleted_files.amount
    }

    /// The counts agree with the lists, and their sum fits in a `usize`.
    pub open spec fn wf(self) -> bool {
        &&& self.new_files.wf()
        &&& self.added_files.wf()
        &&& self.modified_files.wf()
        &&& self.deleted_files.wf()
        &&& self.total_changes() <= usize::MAX
    }
}

/// A record has changes exactly when its total is not zero.
pub proof fn lemma_total_zero_iff_clean(r: RepoModel)
    ensures
        (r.total_changes() == 0) <==> !r.has_changes(),
{
}

impl RepoInfo {
    pub fn has_changes(&self) -> (r: bool)
        ensures
            r == self@.has_changes(),
    {
        self.new_files.amount > 0 || self.added_files.amount > 0 || self.modified_files.amount > 0
            || self.deleted_files.amount > 0
    }

    pub fn total_changes(&self) -> (r: usize)
        requires
            self@.total_changes() <= usize::MAX,
        ensures
            r == self@.total_changes(),
    {
        self.new_files.amount + self.added_files.amount + self.modified_files.amount
            + self.deleted_files.amount
    }
}

/// A repository whose status could not be read.
#[derive(Clone)]
pub struct ProbeError {
    pub path: String,
}

impl ProbeError {
    pub fn new(path: &str) -> (r: ProbeError)
        ensures
            r.path@ == path@,
    {
        ProbeError { path: copy_str(path) }
    }
}

pub open spec fn opt_string(o: Option<String>) -> Option<Seq<char>> {
    match o {
        Some(s) => Some(s@),
        None => None,
    }
}

/// The last segment of a path: its longest non-empty suffix without `/`,
/// or `None` where the path is empty or ends in `/`.
pub open spec fn last_segment(p: Seq<char>) -> Option<Seq<char>>
    decreases p.len(),
{
    if p.len() == 0 || p.last() == '/' {
        None
    } else {
        match last_segment(p.drop_last()) {
            Some(s) => Some(s.push(p.last())),
            None => Some(seq![p.last()]),
        }
    }
}

/// The pattern for a path's last segment: one or more characters other
/// than `/`, up to the end of the text.
pub open spec fn name_pattern() -> Seq<char> {
    "([^/]+$)"@
}

/// Relies on regex::Regex::new and Regex::find: the pattern compiles, and
/// the leftmost-first match of `[^/]+$` is the suffix after the last `/`
/// when that suffix is not empty; there is no match otherwise.
#[verifier::external_body]
fn first_match(pattern: &str, text: &str) -> (r: Option<String>)
    requires
        pattern@ == name_pattern(),
    ensures
        opt_string(r) == last_segment(text@),
{
    regex::Regex::new(pattern).ok()?.find(text).map(|m| m.as_str().to_string())
}

/// A repository is named by its path's last segment, or by the whole path
/// where there is none.
pub open spec fn display_name(path: Seq<char>) -> Seq<char> {
    match last_segment(path) {
        Some(n) => n,
        None => path,
    }
}

pub const HEADS_PREFIX: &'static str = "refs/heads/";

/// The branch shown for a head reference: a local branch without its
/// `refs/heads/` prefix, another reference as it is, a detached head as `HEAD`.
pub open spec fn branch_label(head: Option<Seq<char>>) -> Seq<char> {
    match head {
        Some(full) => {
            let p = HEADS_PREFIX@;
            if full.len() >= p.len() && full.take(p.len() as int) == p {
                full.skip(p.len() as int)
            } else {
                full
            }
        },
        None => "HEAD"@,
    }
}

pub open spec fn tracker_of(status: Seq<char>, files: Seq<Seq<char>>, verbose: bool) -> TrackerModel {
    TrackerModel {
        status,
        amount: files.len(),
        files: if verbose {
            Some(files)
        } else {
            None
        },
    }
}

pub open spec fn label_of(verbose: bool, long: Seq<char>, short: Seq<char>) -> Seq<char> {
    if verbose {
        long
    } else {
        short
    }
}

/// The record that a probe builds from a name, a path, a branch and the
/// entries of the status text.
pub open spec fn record_of(
    name: Seq<char>,
    path: Seq<char>,
    branch: Seq<char>,
    t: Tally,
    verbose: bool,
) -> RepoModel {
    RepoModel {
        name,
        path,
        branch,
        new_files: tracker_of(label_of(verbose, "New"@, "??"@), t.new, verbose),
        added_files: tracker_of(label_of(verbose, "Added"@, "A"@), t.added, verbose),
        modified_files: tracker_of(label_of(verbose, "Modified"@, "M"@), t.modified, verbose),
        deleted_files: tracker_of(label_of(verbose, "Deleted"@, "D"@), t.deleted, verbose),
    }
}

fn make_tracker(verbose: bool, long: &str, short: &str, files: Vec<String>) -> (r: FileTracker)
    ensures
        r@ == tracker_of(label_of(verbose, long@, short@), string_models(files@), verbose),
{
    let amount = files.len();
    if verbose {
        FileTracker::new(long, amount, Some(files))
    } else {
        FileTracker::new(short, amount, None)
    }
}

/// What a probe gave for one repository: its record, or the path that failed.
pub open spec fn outcome_model(o: Result<RepoInfo, ProbeError>) -> Result<RepoModel, Seq<char>> {
    match o {
        Ok(r) => Ok(r@),
        Err(e) => Err(e.path@),
    }
}

pub open spec fn outcome_models(v: Seq<Result<RepoInfo, ProbeError>>) -> Seq<Result<RepoModel, Seq<char>>> {
    v.map_values(|o: Result<RepoInfo, ProbeError>| outcome_model(o))
}

/// The records among probe outcomes, in order.
pub open spec fn oks(s: Seq<Result<RepoModel, Seq<char>>>) -> Seq<RepoModel>
    decreases s.len(),
{
    if s.len() == 0 {
        Seq::empty()
    } else {
        match s.last() {
            Ok(r) => oks(s.drop_last()).push(r),
            Err(_) => oks(s.drop_last()),
        }
    }
}

/// The paths that failed among probe outcomes, in order.
pub open spec fn errs(s: Seq<Result<RepoModel, Seq<char>>>) -> Seq<Seq<char>>
    decreases s.len(),
{
    if s.len() == 0 {
        Seq::empty()
    } else {
        match s.last() {
            Ok(_) => errs(s.drop_last()),
            Err(p) => errs(s.drop_last()).push(p),
        }
    }
}

/// The records of the outcomes are well formed.
pub open spec fn outcomes_wf(s: Seq<Result<RepoModel, Seq<char>>>) -> bool {
    forall|i: int| 0 <= i < s.len() ==> (#[trigger] s[i] matches Ok(r) ==> r.wf())
}

proof fn lemma_oks_wf(s: Seq<Result<RepoModel, Seq<char>>>)
    requires
        outcomes_wf(s),
    ensures
        all_wf(oks(s)),
    decreases s.len(),
{
    if s.len() > 0 {
        let d = s.drop_last();
        assert forall|i: int| 0 <= i < d.len() implies (#[trigger] d[i] matches Ok(r) ==> r.wf()) by {
            assert(d[i] == s[i]);
        }
        lemma_oks_wf(d);
        assert(s.last() == s[s.len() - 1]);
    }
}

/// The result of a batch run: the records in order, and the paths whose
/// probe failed.
pub struct Collected {
    pub repos: Vec<RepoInfo>,
    pub failed: Vec<String>,
}

/// Turns probe results into records and orders them.
pub struct Reader {}

impl Reader {
    /// Gathers the outcomes of one probe per repository: the records, ordered
    /// as `sort_spec` states, and the failed paths in the order given. A
    /// failed probe leaves the other records as they are.
    pub fn collect_repos(outcomes: Vec<Result<RepoInfo, ProbeError>>) -> (r: Collected)
        requires
            outcomes_wf(outcome_models(outcomes@)),
        ensures
            models(r.repos@) == sort_spec(oks(outcome_models(outcomes@))),
            string_models(r.failed@) == errs(outcome_models(outcomes@)),
    {
        let ghost s = outcome_models(outcomes@);
        assert(s.len() == outcomes.len());
        let mut rest = outcomes;
        let mut repos: Vec<RepoInfo> = Vec::new();
        let mut failed: Vec<String> = Vec::new();
        let mut k: usize = 0;
        assert(s.take(0) =~= Seq::<Result<RepoModel, Seq<char>>>::empty());
        assert(models(repos@) =~= Seq::<RepoModel>::empty());
        assert(string_models(failed@) =~= Seq::<Seq<char>>::empty());
        while rest.len() > 0
            invariant
                k + rest.len() == s.len(),
                s.len() <= usize::MAX,
                outcome_models(rest@) == s.skip(k as int),
                models(repos@) == sort_spec(oks(s.take(k as int))),
                string_models(failed@) == errs(s.take(k as int)),
                outcomes_wf(s),
                all_wf(models(repos@)),
            decreases rest.len(),
        {
            let ghost r0 = rest@;
            assert(outcome_models(r0)[0] == outcome_model(r0[0]));
            let o = rest.remove(0);
            assert(outcome_model(o) == s[k as int]);
            assert forall|j: int| 0 <= j < rest@.len() implies outcome_models(rest@)[j] == s.skip(k + 1)[j] by {
                assert(rest@[j] == r0[j + 1]);
                assert(outcome_models(r0)[j + 1] == s.skip(k as int)[j + 1]);
            }
            assert(outcome_models(rest@) =~= s.skip(k + 1));
            assert(s.take(k + 1).drop_last() =~= s.take(k as int));
            assert(s.take(k + 1).last() == s[k as int]);
            match o {
                Ok(repo) => {
                    assert(s[k as int] matches Ok(m) ==> m.wf());
                    let ghost prev = oks(s.take(k as int));
                    assert(oks(s.take(k + 1)) == prev.push(repo@));
                    assert(prev.push(repo@).drop_last() =~= prev);
                    insert_sorted(&mut repos, repo);
                },
                Err(e) => {
                    let ghost f0 = failed@;
                    failed.push(e.path);
                    assert(string_models(failed@) =~= string_models(f0).push(e.path@));
                },
            }
            k += 1;
        }
        assert(s.take(k as int) =~= s);
        Collected { repos, failed }
    }

    /// The display name of the repository at `path`.
    pub fn repo_name(path: &str) -> (r: String)
        ensures
            r@ == display_name(path@),
    {
        let found = first_match("([^/]+$)", path);
        match found {
            Some(n) => n,
            None => copy_str(path),
        }
    }

    /// The branch label for the reference that HEAD points to, if any.
    pub fn branch_label(head: Option<&str>) -> (r: String)
        ensures
            r@ == branch_label(
                match head {
                    Some(h) => Some(h@),
                    None => None,
                },
            ),
    {
        match head {
            Some(full) => {
                let f = chars_of(full);
                let p = chars_of(HEADS_PREFIX);
                let mut same = f.len() >= p.len();
                let mut i: usize = 0;
                while same && i < p.len()
                    invariant
                        i <= p.len(),
                        same ==> p.len() <= f.len(),
                        same ==> f@.take(i as int) == p@.take(i as int),
                        !same ==> !(f@.len() >= p@.len() && f@.take(p.len() as int) == p@),
                    decreases p.len() - i + (if same { 1int } else { 0int }),
                {
                    if f[i] != p[i] {
                        same = false;
                        assert(f@.take(p.len() as int)[i as int] != p@[i as int]);
                    } else {
                        assert(f@.take(i + 1) == f@.take(i as int).push(f@[i as int]));
                        assert(p@.take(i + 1) == p@.take(i as int).push(p@[i as int]));
                        i += 1;
                    }
                }
                if same {
                    assert(p@.take(p.len() as int) == p@);
                    let mut rest: Vec<char> = Vec::new();
                    let mut j: usize = p.len();
                    while j < f.len()
                        invariant
                            p.len() <= j <= f.len(),
                            rest@ == f@.subrange(p.len() as int, j as int),
                        decreases f.len() - j,
                    {
                        rest.push(f[j]);
                        j += 1;
                    }
                    string_of(&rest)
                } else {
                    string_of(&f)
                }
            },
            None => copy_str("HEAD"),
        }
    }

    /// Builds the record of one repository from its name, path, head
    /// reference and short-status text.
    pub fn build_repo_info(
        name: &str,
        path: &str,
        head: Option<&str>,
        status: &str,
        verbose: bool,
    ) -> (r: RepoInfo)
        ensures
            r@ == record_of(
                name@,
                path@,
                branch_label(
                    match head {
                        Some(h) => Some(h@),
                        None => None,
                    },
                ),
                tally_of(status@),
                verbose,
            ),
            r@.wf(),
    {
        let lists = parse_status(status);
        let branch = Self::branch_label(head);
        RepoInfo {
            name: copy_str(name),
            path: copy_str(path),
            branch,
            new_files: make_tracker(verbose, "New", "??", lists.new),
            added_files: make_tracker(verbose, "Added", "A", lists.added),
            modified_files: make_tracker(verbose, "Modified", "M", lists.modified),
            deleted_files: make_tracker(verbose, "Deleted", "D", lists.deleted),
        }
    }

    /// Builds the record of the repository at `path`, named after the last
    /// segment of its path.
    pub fn find_repo_info(path: &str, head: Option<&str>, status: &str, verbose: bool) -> (r: RepoInfo)
        ensures
            r@ == record_of(
                display_name(path@),
                path@,
                branch_label(
                    match head {
                        Some(h) => Some(h@),
                        None => None,
                    },
                ),
                tally_of(status@),
                verbose,
            ),
            r@.wf(),
    {
        let name = Self::repo_name(path);
        Self::build_repo_info(name.as_str(), path, head, status, verbose)
    }
}

} // verus!
