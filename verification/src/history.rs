//! Listing of stored history blobs.
//!
//! History content lives as `.json` blobs under an application-private
//! directory.  Given a snapshot of that directory tree, the collector
//! walks it depth-first in entry order and gathers the paths of every
//! file whose name carries the `json` extension.  A sub-listing that
//! could not be read aborts the walk with its failure message; entries
//! without a name to test are skipped.

use crate::errors::CoreError;
use crate::scanner::{entries_view, entry_view, lemma_entries_view_index, RawEntry, RawEntryView};
use vstd::prelude::*;

verus! {

/// A name with the `json` extension: it ends in `.json` and the dot
/// does not begin the name, so a bare `.json` is a hidden file, not a
/// `json`-extension one.
pub open spec fn json_name(name: Seq<char>) -> bool {
    &&& name.len() >= 6
    &&& name[name.len() - 5] == '.'
    &&& name[name.len() - 4] == 'j'
    &&& name[name.len() - 3] == 's'
    &&& name[name.len() - 2] == 'o'
    &&& name[name.len() - 1] == 'n'
}

/// The paths a walk of the snapshot collects: every `.json` file, in
/// depth-first entry order, or the first failure message met.
pub open spec fn json_files(ents: Seq<RawEntryView>) -> Result<Seq<Seq<char>>, Seq<char>>
    decreases ents,
{
    if ents.len() == 0 {
        Ok(Seq::empty())
    } else {
        match ents[0] {
            RawEntryView::File { name, path } => match json_files(ents.drop_first()) {
                Ok(r) => Ok(
                    if json_name(name) {
                        seq![path] + r
                    } else {
                        r
                    },
                ),
                Err(e) => Err(e),
            },
            RawEntryView::Dir { listing, .. } => match listing {
                Err(m) => Err(m),
                Ok(sub) => match json_files(sub) {
                    Err(e) => Err(e),
                    Ok(here) => match json_files(ents.drop_first()) {
                        Ok(r) => Ok(here + r),
                        Err(e) => Err(e),
                    },
                },
            },
            RawEntryView::MetaError { .. } => json_files(ents.drop_first()),
            RawEntryView::Vanished => json_files(ents.drop_first()),
        }
    }
}

/// The mathematical value of a collected path list.
pub open spec fn files_view(s: Seq<String>) -> Seq<Seq<char>> {
    s.map_values(|f: String| f@)
}

/// Tests a file name for the `json` extension.
pub fn is_json_name(name: &str) -> (r: bool)
    ensures
        r == json_name(name@),
{
    let n = name.unicode_len();
    if n < 6 {
        return false;
    }
    name.get_char(n - 5) == '.' && name.get_char(n - 4) == 'j' && name.get_char(n - 3) == 's'
        && name.get_char(n - 2) == 'o' && name.get_char(n - 1) == 'n'
}

/// Walks the snapshot from entry `i` on, appending collected paths.
fn collect_json_from(dir: &Vec<RawEntry>, i: usize, files: &mut Vec<String>) -> (r: Result<
    (),
    CoreError,
>)
    requires
        i <= dir@.len(),
    ensures
        json_files(entries_view(dir@).skip(i as int)) matches Ok(ps) ==> (r is Ok && files_view(
            final(files)@,
        ) == files_view(old(files)@) + ps),
        json_files(entries_view(dir@).skip(i as int)) matches Err(d) ==> (r matches Err(e)
            && e matches CoreError::PermissionOrIo(m) && m@ == d),
    decreases entries_view(dir@).skip(i as int),
{
    let ghost ev = entries_view(dir@);
    let ghost suffix = ev.skip(i as int);
    proof {
        lemma_entries_view_index(dir@);
    }
    if i == dir.len() {
        proof {
            assert(suffix =~= Seq::empty());
            assert(files_view(files@) =~= files_view(files@) + Seq::<Seq<char>>::empty());
        }
        return Ok(());
    }
    proof {
        assert(suffix[0] == ev[i as int]);
        assert(suffix[0] == entry_view(dir@[i as int]));
        assert(suffix.drop_first() =~= ev.skip(i as int + 1));
    }
    match &dir[i] {
        RawEntry::File { name, path } => {
            if is_json_name(name.as_str()) {
                files.push(path.clone());
                proof {
                    assert(files_view(files@) =~= files_view(old(files)@) + seq![path@]);
                }
            }
            let r = collect_json_from(dir, i + 1, files);
            proof {
                if json_files(suffix) is Ok {
                    let rest = json_files(ev.skip(i as int + 1))->Ok_0;
                    assert(files_view(files@) =~= files_view(old(files)@) + json_files(
                        suffix,
                    )->Ok_0);
                }
            }
            r
        },
        RawEntry::Dir { listing, .. } => match listing {
            Err(m) => Err(CoreError::PermissionOrIo(m.clone())),
            Ok(sub) => {
                proof {
                    assert(entry_view(dir@[i as int]) matches RawEntryView::Dir { listing, .. }
                        && listing == Ok::<Seq<RawEntryView>, Seq<char>>(entries_view(sub@)));
                    assert(entries_view(sub@).skip(0) =~= entries_view(sub@));
                }
                let dr = collect_json_from(sub, 0, files);
                match dr {
                    Err(e) => Err(e),
                    Ok(()) => {
                        let r = collect_json_from(dir, i + 1, files);
                        proof {
                            if json_files(suffix) is Ok {
                                assert(files_view(files@) =~= files_view(old(files)@)
                                    + json_files(suffix)->Ok_0);
                            }
                        }
                        r
                    },
                }
            },
        },
        RawEntry::MetaError { .. } => collect_json_from(dir, i + 1, files),
        RawEntry::Vanished => collect_json_from(dir, i + 1, files),
    }
}

/// Walks one directory snapshot, appending the path of every `.json`
/// file to `files` in depth-first entry order.
pub fn list_json_files_recursive(dir: &Vec<RawEntry>, files: &mut Vec<String>) -> (r: Result<
    (),
    CoreError,
>)
    ensures
        json_files(entries_view(dir@)) matches Ok(ps) ==> (r is Ok && files_view(final(files)@)
            == files_view(old(files)@) + ps),
        json_files(entries_view(dir@)) matches Err(d) ==> (r matches Err(e)
            && e matches CoreError::PermissionOrIo(m) && m@ == d),
{
    proof {
        assert(entries_view(dir@).skip(0) =~= entries_view(dir@));
    }
    collect_json_from(dir, 0, files)
}

/// Lists the stored history blobs under the given snapshot of the
/// application's history directory.
pub fn list_history_files(dir: &Vec<RawEntry>) -> (r: Result<Vec<String>, CoreError>)
    ensures
        json_files(entries_view(dir@)) matches Ok(ps) ==> (r matches Ok(v) && files_view(v@)
            == ps),
        json_files(entries_view(dir@)) matches Err(d) ==> (r matches Err(e)
            && e matches CoreError::PermissionOrIo(m) && m@ == d),
{
    let mut files: Vec<String> = Vec::new();
    let r = list_json_files_recursive(dir, &mut files);
    proof {
        if json_files(entries_view(dir@)) is Ok {
            assert(files_view(Seq::<String>::empty()) =~= Seq::<Seq<char>>::empty());
            assert(files_view(files@) =~= json_files(entries_view(dir@))->Ok_0);
        }
    }
    match r {
        Ok(()) => Ok(files),
        Err(e) => Err(e),
    }
}

} // verus!
