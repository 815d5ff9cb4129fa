//! The match-file filter of the directory scanner.
//!
//! The caller walks the `match` directory recursively (following symbolic
//! links) and hands over one entry per visited path, in walk order; this
//! module keeps the regular files whose extension is exactly `yml` and
//! returns their stems, in the same order.

use vstd::prelude::*;

verus! {

/// One entry of a recursive directory walk: whether the path is a regular
/// file, and its final file name.
pub struct DirEntryInfo {
    pub is_file: bool,
    pub name: String,
}

/// The mathematical value of a walk entry.
pub ghost struct EntryModel {
    pub is_file: bool,
    pub name: Seq<char>,
}

impl View for DirEntryInfo {
    type V = EntryModel;

    open spec fn view(&self) -> EntryModel {
        EntryModel { is_file: self.is_file, name: self.name@ }
    }
}

/// The value of a sequence of walk entries, element by element.
pub open spec fn entry_views(s: Seq<DirEntryInfo>) -> Seq<EntryModel> {
    Seq::new(s.len(), |i: int| s[i]@)
}

/// The value of a sequence of strings, element by element.
pub open spec fn string_views(s: Seq<String>) -> Seq<Seq<char>> {
    Seq::new(s.len(), |i: int| s[i]@)
}

/// Index of the last dot of a file name.
pub open spec fn last_dot(s: Seq<char>) -> Option<int>
    decreases s.len(),
{
    if s.len() == 0 {
        None
    } else if s[s.len() - 1] == '.' {
        Some(s.len() - 1)
    } else {
        last_dot(s.take(s.len() - 1))
    }
}

/// The extension of a file name: what follows the last dot, provided that
/// dot is not the leading character (a leading dot marks a hidden file,
/// not an extension).
pub open spec fn ext_of(name: Seq<char>) -> Option<Seq<char>> {
    match last_dot(name) {
        Some(i) => if i > 0 {
            Some(name.skip(i + 1))
        } else {
            None
        },
        None => None,
    }
}

/// The stem of a file name: the name without its extension.
pub open spec fn stem_of(name: Seq<char>) -> Seq<char> {
    match last_dot(name) {
        Some(i) => if i > 0 {
            name.take(i)
        } else {
            name
        },
        None => name,
    }
}

/// The extension that marks a match file.
pub open spec fn yml_ext() -> Seq<char> {
    seq!['y', 'm', 'l']
}

/// An entry is collected when it is a regular file with extension `yml`.
pub open spec fn is_yml_file(e: EntryModel) -> bool {
    e.is_file && ext_of(e.name) == Some(yml_ext())
}

/// The stems of all match files among `entries`, in walk order.
pub open spec fn stems_of(entries: Seq<EntryModel>) -> Seq<Seq<char>>
    decreases entries.len(),
{
    if entries.len() == 0 {
        Seq::empty()
    } else if is_yml_file(entries[0]) {
        seq![stem_of(entries[0].name)] + stems_of(entries.skip(1))
    } else {
        stems_of(entries.skip(1))
    }
}

/// Collecting stems distributes over concatenation of walks.
pub proof fn lemma_stems_concat(a: Seq<EntryModel>, b: Seq<EntryModel>)
    ensures
        stems_of(a + b) == stems_of(a) + stems_of(b),
    decreases a.len(),
{
    if a.len() == 0 {
        assert(a + b =~= b);
        assert(stems_of(a) + stems_of(b) =~= stems_of(b));
    } else {
        assert((a + b).len() > 0);
        assert((a + b)[0] == a[0]);
        assert((a + b).skip(1) =~= a.skip(1) + b);
        lemma_stems_concat(a.skip(1), b);
        if is_yml_file(a[0]) {
            assert(seq![stem_of(a[0].name)] + (stems_of(a.skip(1)) + stems_of(b)) =~= (seq![
                stem_of(a[0].name),
            ] + stems_of(a.skip(1))) + stems_of(b));
        }
    }
}

/// Position just after the last dot of `cs`, if any.
fn last_dot_exec(cs: &Vec<char>) -> (r: Option<usize>)
    ensures
        match r {
            Some(j) => j < cs@.len() && last_dot(cs@) == Some(j as int),
            None => last_dot(cs@) is None,
        },
{
    let mut j: usize = cs.len();
    proof {
        assert(cs@.take(cs@.len() as int) =~= cs@);
    }
    while j > 0
        invariant
            j <= cs@.len(),
            last_dot(cs@) == last_dot(cs@.take(j as int)),
        decreases j,
    {
        if cs[j - 1] == '.' {
            proof {
                assert(cs@.take(j as int)[j - 1] == cs@[j - 1]);
            }
            return Some(j - 1);
        }
        proof {
            assert(cs@.take(j as int)[j - 1] == cs@[j - 1]);
            assert(cs@.take(j as int).take(j - 1) =~= cs@.take(j - 1));
        }
        j = j - 1;
    }
    proof {
        assert(cs@.take(0).len() == 0);
    }
    None
}

/// The stem of one walk entry, when the entry is a match file.
fn stem_of_entry(e: &DirEntryInfo) -> (r: Option<String>)
    ensures
        match r {
            Some(s) => is_yml_file(e@) && s@ == stem_of(e@.name),
            None => !is_yml_file(e@),
        },
{
    if !e.is_file {
        return None;
    }
    let cs = crate::text::chars_of(e.name.as_str());
    let j = match last_dot_exec(&cs) {
        Some(j) => j,
        None => {
            return None;
        },
    };
    if j == 0 {
        return None;
    }
    let n = cs.len();
    let ok = n - j == 4 && cs[j + 1] == 'y' && cs[j + 2] == 'm' && cs[j + 3] == 'l';
    proof {
        let ext = e@.name.skip(j + 1);
        assert(ext.len() == n - j - 1);
        if ok {
            assert(ext[0] == cs@[j + 1]);
            assert(ext[1] == cs@[j + 2]);
            assert(ext[2] == cs@[j + 3]);
            assert(ext =~= yml_ext());
        } else if ext == yml_ext() {
            assert(ext.len() == 3);
            assert(ext[0] == cs@[j + 1] && ext[0] == 'y');
            assert(ext[1] == cs@[j + 2] && ext[1] == 'm');
            assert(ext[2] == cs@[j + 3] && ext[2] == 'l');
            assert(false);
        }
    }
    if !ok {
        return None;
    }
    let stem = crate::text::copy_range(&cs, 0, j);
    proof {
        assert(e@.name.take(j as int) =~= cs@.subrange(0, j as int));
    }
    Some(crate::text::string_of(&stem))
}

/// The stems of all match files in a recursive walk of the match
/// directory, in the caller's walk order.
pub fn get_all_match_file_stems(entries: &Vec<DirEntryInfo>) -> (r: Vec<String>)
    ensures
        string_views(r@) == stems_of(entry_views(entries@)),
{
    let mut r: Vec<String> = Vec::new();
    let mut i: usize = 0;
    proof {
        assert(entry_views(entries@).take(0).len() == 0);
        assert(string_views(r@) =~= stems_of(entry_views(entries@).take(0)));
    }
    while i < entries.len()
        invariant
            i <= entries@.len(),
            string_views(r@) == stems_of(entry_views(entries@).take(i as int)),
        decreases entries@.len() - i,
    {
        let ghost pre = entry_views(entries@).take(i as int);
        let ghost e = entry_views(entries@)[i as int];
        proof {
            lemma_stems_concat(pre, seq![e]);
            assert(entry_views(entries@).take(i + 1 as int) =~= pre + seq![e]);
            assert(seq![e].skip(1).len() == 0);
            assert(stems_of(seq![e].skip(1)) =~= Seq::<Seq<char>>::empty());
            if is_yml_file(e) {
                assert(stems_of(seq![e]) =~= seq![stem_of(e.name)]);
            } else {
                assert(stems_of(seq![e]) =~= Seq::<Seq<char>>::empty());
            }
        }
        match stem_of_entry(&entries[i]) {
            Some(s) => {
                r.push(s);
                proof {
                    assert(string_views(r@) =~= stems_of(pre) + seq![stem_of(e.name)]);
                }
            },
            None => {
                proof {
                    assert(stems_of(pre) + Seq::<Seq<char>>::empty() =~= stems_of(pre));
                }
            },
        }
        i = i + 1;
    }
    proof {
        assert(entry_views(entries@).take(entries@.len() as int) =~= entry_views(entries@));
    }
    r
}

} // verus!
