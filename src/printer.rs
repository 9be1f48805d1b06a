use vstd::prelude::*;

use crate::reader::{RepoInfo, RepoModel, TrackerModel};
use crate::order::models;
use crate::status::string_models;
use crate::text::{decimal, push_decimal, push_str};

verus! {

/// The one-line summary of a record's counts: `?N +N ~N -N`.
pub open spec fn summary(m: RepoModel) -> Seq<char> {
    "?"@ + decimal(m.new_files.amount) + " +"@ + decimal(m.added_files.amount) + " ~"@ + decimal(
        m.modified_files.amount,
    ) + " -"@ + decimal(m.deleted_files.amount)
}

/// One line per path.
pub open spec fn file_lines(files: Seq<Seq<char>>) -> Seq<char>
    decreases files.len(),
{
    if files.len() == 0 {
        Seq::empty()
    } else {
        file_lines(files.drop_last()) + "| _ "@ + files.last() + "\n"@
    }
}

/// A titled list of the paths of one category, or nothing where it has none.
pub open spec fn category_block(title: Seq<char>, t: TrackerModel) -> Seq<char> {
    match t.files {
        Some(f) => if f.len() > 0 {
            title + "\n"@ + file_lines(f)
        } else {
            Seq::empty()
        },
        None => Seq::empty(),
    }
}

pub open spec fn categories(m: RepoModel) -> Seq<char> {
    category_block("New"@, m.new_files) + category_block("Added"@, m.added_files) + category_block(
        "Modified"@,
        m.modified_files,
    ) + category_block("Deleted"@, m.deleted_files)
}

/// The line that states that a record has no changes.
pub open spec fn nothing_line() -> Seq<char> {
    "Nothing new!\n"@
}

/// What follows a record's header line: the statement that nothing changed,
/// or the lists of files by category, or the compact summary.
pub open spec fn body(m: RepoModel, verbose: bool) -> Seq<char> {
    if !m.has_changes() {
        nothing_line()
    } else if verbose {
        categories(m)
    } else {
        "| "@ + summary(m) + "\n"@
    }
}

/// The block of one record: a header with name and branch, then its body.
pub open spec fn block(m: RepoModel, verbose: bool) -> Seq<char> {
    "| "@ + m.name + ": ["@ + m.branch + "]\n"@ + body(m, verbose)
}

/// The blocks of all records, in the order given.
pub open spec fn printed(s: Seq<RepoModel>, verbose: bool) -> Seq<char>
    decreases s.len(),
{
    if s.len() == 0 {
        Seq::empty()
    } else {
        printed(s.drop_last(), verbose) + block(s.last(), verbose)
    }
}

/// Printing depends on the records and the flag alone: two runs on the same
/// records give the same text.
pub proof fn lemma_print_idempotent(a: Seq<RepoModel>, b: Seq<RepoModel>, verbose: bool)
    requires
        a == b,
    ensures
        printed(a, verbose) == printed(b, verbose),
{
}

/// Renders records as text, for a terminal without the dashboard.
pub struct Printer {}

impl Printer {
    /// The compact summary of a record's counts.
    pub fn compact_summary(repo: &RepoInfo) -> (r: String)
        ensures
            r@ == summary(repo@),
    {
        let mut s = String::new();
        push_str(&mut s, "?");
        push_decimal(&mut s, repo.new_files.amount);
        push_str(&mut s, " +");
        push_decimal(&mut s, repo.added_files.amount);
        push_str(&mut s, " ~");
        push_decimal(&mut s, repo.modified_files.amount);
        push_str(&mut s, " -");
        push_decimal(&mut s, repo.deleted_files.amount);
        assert(s@ =~= summary(repo@));
        s
    }

    fn formatted_list(out: &mut String, list: &Vec<String>)
        ensures
            final(out)@ == old(out)@ + file_lines(string_models(list@)),
    {
        let ghost start = out@;
        let mut i: usize = 0;
        while i < list.len()
            invariant
                i <= list.len(),
                out@ == start + file_lines(string_models(list@).take(i as int)),
            decreases list.len() - i,
        {
            let ghost before = out@;
            push_str(out, "| _ ");
            push_str(out, list[i].as_str());
            push_str(out, "\n");
            assert(string_models(list@).take(i + 1).drop_last() =~= string_models(list@).take(i as int));
            assert(out@ =~= start + file_lines(string_models(list@).take(i + 1)));
            i += 1;
        }
        assert(string_models(list@).take(i as int) =~= string_models(list@));
    }

    fn category(out: &mut String, title: &str, files: &Option<Vec<String>>, t: Ghost<TrackerModel>)
        requires
            t@.files == match files {
                Some(v) => Some(string_models(v@)),
                None => None,
            },
        ensures
            final(out)@ == old(out)@ + category_block(title@, t@),
    {
        let ghost start = out@;
        match files {
            Some(list) => {
                if list.len() > 0 {
                    push_str(out, title);
                    push_str(out, "\n");
                    Self::formatted_list(out, list);
                    assert(out@ =~= start + category_block(title@, t@)) by {
                        assert(string_models(list@).len() == list.len());
                    }
                } else {
                    assert(start + category_block(title@, t@) =~= start);
                }
            },
            None => {
                assert(start + category_block(title@, t@) =~= start);
            },
        }
    }

    fn get_verbose_format(out: &mut String, repo: &RepoInfo)
        ensures
            final(out)@ == old(out)@ + body(repo@, true),
    {
        if repo.has_changes() {
            let ghost start = out@;
            Self::category(out, "New", &repo.new_files.files, Ghost(repo.new_files@));
            Self::category(out, "Added", &repo.added_files.files, Ghost(repo.added_files@));
            Self::category(out, "Modified", &repo.modified_files.files, Ghost(repo.modified_files@));
            Self::category(out, "Deleted", &repo.deleted_files.files, Ghost(repo.deleted_files@));
            assert(out@ =~= start + categories(repo@));
        } else {
            push_str(out, "Nothing new!\n");
        }
    }

    /// Appends the block of one record.
    pub fn format_repo(out: &mut String, repo: &RepoInfo, verbose: bool)
        ensures
            final(out)@ == old(out)@ + block(repo@, verbose),
    {
        let ghost start = out@;
        push_str(out, "| ");
        push_str(out, repo.name.as_str());
        push_str(out, ": [");
        push_str(out, repo.branch.as_str());
        push_str(out, "]\n");
        let ghost head = out@;
        if verbose {
            Self::get_verbose_format(out, repo);
        } else if repo.has_changes() {
            push_str(out, "| ");
            let s = Self::compact_summary(repo);
            push_str(out, s.as_str());
            push_str(out, "\n");
            assert(out@ =~= head + body(repo@, verbose));
        } else {
            push_str(out, "Nothing new!\n");
        }
        assert(out@ =~= start + block(repo@, verbose));
    }

    /// The text of all records, one block each, in the order given.
    pub fn format_repos(repos: &Vec<RepoInfo>, verbose: bool) -> (r: String)
        ensures
            r@ == printed(models(repos@), verbose),
    {
        let mut out = String::new();
        let mut i: usize = 0;
        assert(models(repos@).take(0) =~= Seq::<RepoModel>::empty());
        while i < repos.len()
            invariant
                i <= repos.len(),
                out@ == printed(models(repos@).take(i as int), verbose),
            decreases repos.len() - i,
        {
            Self::format_repo(&mut out, &repos[i], verbose);
            assert(models(repos@).take(i + 1).drop_last() =~= models(repos@).take(i as int));
            assert(models(repos@).take(i + 1).last() == repos@[i as int]@);
            i += 1;
        }
        assert(models(repos@).take(i as int) =~= models(repos@));
        out
    }
}

} // verus!
