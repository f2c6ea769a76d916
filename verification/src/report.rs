//! Read-only projections of a scan, as plain text.

use crate::path::{names, render_text, FilePath, PathModel};
use crate::seqs::views;
use crate::status::{DotFile, Entry, FileStatus};
use vstd::prelude::*;

verus! {

/// The symbol that stands for a status.
pub open spec fn symbol_of(status: FileStatus) -> char {
    match status {
        FileStatus::MISSING => '+',
        FileStatus::MODIFIED => 'M',
        FileStatus::CLEAN => '=',
        FileStatus::ERROR => '!',
    }
}

/// The symbol that stands for a status, as text.
pub fn status_symbol(status: FileStatus) -> (symbol: &'static str)
    ensures
        symbol@ == seq![symbol_of(status)],
{
    proof {
        reveal_strlit("+");
        reveal_strlit("M");
        reveal_strlit("=");
        reveal_strlit("!");
    }
    let symbol = match status {
        FileStatus::MISSING => "+",
        FileStatus::MODIFIED => "M",
        FileStatus::CLEAN => "=",
        FileStatus::ERROR => "!",
    };
    assert(symbol@ =~= seq![symbol_of(status)]);
    symbol
}

/// The line that explains the four symbols.
pub open spec fn legend() -> Seq<char> {
    "Legend: + missing | M modified | = clean | ! error"@
}

/// The line for one entry: its symbol, a space, its relative path.
pub open spec fn status_line(entry: Entry) -> Seq<char> {
    seq![symbol_of(entry.status), ' '] + render_text(entry.relative_path)
}

/// The status report: the legend, then one line for each entry, in order.
pub fn status(entries: &Vec<DotFile>) -> (lines: Vec<String>)
    ensures
        lines@.len() == entries@.len() + 1,
        lines@[0]@ == legend(),
        forall|i: int| 0 <= i < entries@.len() ==> (#[trigger] lines@[i + 1])@ == status_line(entries@[i]@),
{
    let mut lines: Vec<String> = Vec::new();
    lines.push("Legend: + missing | M modified | = clean | ! error".to_owned());
    let n = entries.len();
    let mut i: usize = 0;
    while i < n
        invariant
            i <= n,
            n == entries.len(),
            lines@.len() == i + 1,
            lines@[0]@ == legend(),
            forall|j: int| 0 <= j < i ==> (#[trigger] lines@[j + 1])@ == status_line(entries@[j]@),
        decreases n - i,
    {
        proof {
            reveal_strlit(" ");
        }
        let mut line = status_symbol(entries[i].status).to_owned();
        line.append(" ");
        let path = entries[i].relative_path.render();
        line.append(path.as_str());
        assert(line@ =~= status_line(entries@[i as int]@));
        lines.push(line);
        i += 1;
    }
    lines
}

/// The relative paths, as text, of the files that lie under the repository
/// root, in the order in which they were found.
pub open spec fn listing_of(dots: PathModel, files: Seq<PathModel>) -> Seq<Seq<char>>
    decreases files.len(),
{
    if files.len() == 0 {
        Seq::empty()
    } else {
        let before = listing_of(dots, files.drop_last());
        match files.last().strip_prefix(dots) {
            Some(rel) => before.push(render_text(rel)),
            None => before,
        }
    }
}

/// Lists the tracked files by their relative paths.
pub fn list(dots_dir: &FilePath, files: &Vec<FilePath>) -> (lines: Vec<String>)
    ensures
        names(lines@) == listing_of(dots_dir@, views(files@)),
{
    let mut lines: Vec<String> = Vec::new();
    let n = files.len();
    let mut i: usize = 0;
    let ghost all = views(files@);
    assert(all.take(0) =~= Seq::<PathModel>::empty());
    assert(names(lines@) =~= Seq::<Seq<char>>::empty());
    while i < n
        invariant
            i <= n,
            n == files.len(),
            all == views(files@),
            names(lines@) == listing_of(dots_dir@, all.take(i as int)),
        decreases n - i,
    {
        let ghost before = names(lines@);
        proof {
            assert(all.take(i + 1).drop_last() =~= all.take(i as int));
            assert(all.take(i + 1).last() == files@[i as int]@);
        }
        match files[i].strip_prefix(dots_dir) {
            Some(rel) => {
                lines.push(rel.render());
                assert(names(lines@) =~= before.push(render_text(rel@)));
            },
            None => {},
        }
        i += 1;
    }
    assert(all.take(n as int) =~= all);
    lines
}

} // verus!
