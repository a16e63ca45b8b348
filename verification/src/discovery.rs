//! The list of files of a run: what the patterns matched, each path once,
//! in ascending order.

use crate::table::{ascending, Table};
use crate::text::string_views;
use vstd::prelude::*;

verus! {

/// The paths of `matched`, each once, in ascending order.
pub fn discover_files(matched: Vec<String>) -> (files: Vec<String>)
    ensures
        ascending(string_views(files@)),
        forall|path: Seq<char>|
            string_views(files@).contains(path) <==> string_views(matched@).contains(path),
{
    let ghost all = string_views(matched@);
    let mut seen: Table<()> = Table::new();
    let mut i: usize = 0;
    while i < matched.len()
        invariant
            i <= matched.len(),
            all == string_views(matched@),
            forall|path: Seq<char>| seen.has(path) <==> all.take(i as int).contains(path),
        decreases matched.len() - i,
    {
        let ghost before = seen;
        let path = matched[i].clone();
        seen.insert(path, ());
        i = i + 1;
        assert forall|path: Seq<char>| seen.has(path) <==> all.take(i as int).contains(path) by {
            let now = all.take(i as int);
            let earlier = all.take(i - 1);
            assert(now.drop_last() =~= earlier);
            if now.contains(path) {
                let k = choose|k: int| 0 <= k < now.len() && now[k] == path;
                if k < i - 1 {
                    assert(earlier[k] == path);
                }
            }
            if earlier.contains(path) {
                let k = choose|k: int| 0 <= k < earlier.len() && earlier[k] == path;
                assert(now[k] == path);
            }
            assert(now[i - 1] == all[i - 1]);
        }
    }
    assert(all.take(all.len() as int) =~= all);
    assert forall|path: Seq<char>| seen.has(path) <==> all.contains(path) by {}
    let n = seen.len();
    let mut files: Vec<String> = Vec::new();
    let mut j: usize = 0;
    while j < n
        invariant
            j <= n,
            n == seen.names().len(),
            all == string_views(matched@),
            forall|path: Seq<char>| seen.has(path) <==> all.contains(path),
            string_views(files@) == seen.names().take(j as int),
        decreases n - j,
    {
        let ghost before = files@;
        let name = seen.name_at(j).clone();
        files.push(name);
        assert(string_views(files@) =~= string_views(before).push(seen.names()[j as int]));
        j = j + 1;
        assert(string_views(files@) =~= seen.names().take(j as int));
    }
    assert(seen.names().take(n as int) =~= seen.names());
    files
}

} // verus!
