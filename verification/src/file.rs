//! A minimal file model: text split into lines at line feeds only, with a
//! final (possibly empty) line that makes every file non-empty.

use crate::text::{chars_to_string, str_chars};
use vstd::std_specs::cmp::PartialEqSpec;
use vstd::prelude::*;

verus! {

/// An identifier a file can be looked up by.
pub trait FileId: Ord + Eq + core::hash::Hash {

}

impl<T: Ord + Eq + core::hash::Hash> FileId for T {

}

/// A single file: its text and the character range of each line. A line
/// includes its terminating line feed; the final line has no terminator and
/// may be empty, so every file has at least one line.
pub struct File {
    chars: Vec<char>,
    lines: Vec<(usize, usize)>,
}

impl File {
    /// The characters of the file.
    pub closed spec fn spec_chars(&self) -> Seq<char> {
        self.chars@
    }

    /// The character range of each line.
    pub closed spec fn spec_lines(&self) -> Seq<(usize, usize)> {
        self.lines@
    }

    /// Split the given text into a [`File`]: lines are contiguous from the
    /// start of the text, cover it completely, and break exactly after each
    /// line feed; a final, possibly empty, line follows the last line feed.
    pub fn new(content: &str) -> (r: File)
        ensures
            r.spec_chars() == content@,
            r.spec_lines().len() >= 1,
            forall|i: int|
                0 <= i < r.spec_lines().len() ==> (#[trigger] r.spec_lines()[i]).0
                    <= r.spec_lines()[i].1 <= r.spec_chars().len(),
            r.spec_lines()[0].0 == 0,
            forall|i: int|
                #![trigger r.spec_lines()[i], r.spec_lines()[i + 1]]
                0 <= i < r.spec_lines().len() - 1 ==> r.spec_lines()[i + 1].0
                    == r.spec_lines()[i].1,
            r.spec_lines().last().1 == r.spec_chars().len(),
            forall|i: int|
                0 <= i < r.spec_lines().len() - 1 ==> (#[trigger] r.spec_lines()[i]).1
                    > r.spec_lines()[i].0 && r.spec_chars()[r.spec_lines()[i].1 - 1] == '\n',
            forall|i: int, j: int|
                #![trigger r.spec_lines()[i], r.spec_chars()[j]]
                0 <= i < r.spec_lines().len() && r.spec_lines()[i].0 <= j < r.spec_lines()[i].1
                    - 1 ==> r.spec_chars()[j] != '\n',
    {
        let chars = str_chars(content);
        let n = chars.len();
        let mut lines: Vec<(usize, usize)> = Vec::new();
        let mut line_start: usize = 0;
        let mut i: usize = 0;
        while i < n
            invariant
                n == chars@.len(),
                line_start <= i <= n,
                lines@.len() == 0 ==> line_start == 0,
                lines@.len() > 0 ==> lines@[0].0 == 0 && lines@.last().1 == line_start,
                forall|k: int|
                    0 <= k < lines@.len() ==> (#[trigger] lines@[k]).0 <= lines@[k].1 <= n,
                forall|k: int|
                    #![trigger lines@[k], lines@[k + 1]]
                    0 <= k < lines@.len() - 1 ==> lines@[k + 1].0 == lines@[k].1,
                forall|k: int|
                    0 <= k < lines@.len() ==> (#[trigger] lines@[k]).1 > lines@[k].0 && chars@[
                    lines@[k].1 - 1] == '\n',
                forall|k: int, j: int|
                    #![trigger lines@[k], chars@[j]]
                    0 <= k < lines@.len() && lines@[k].0 <= j < lines@[k].1 - 1 ==> chars@[j]
                        != '\n',
                forall|j: int| line_start <= j < i ==> chars@[j] != '\n',
            decreases n - i,
        {
            if chars[i] == '\n' {
                lines.push((line_start, i + 1));
                line_start = i + 1;
            }
            i = i + 1;
        }
        lines.push((line_start, n));
        File { chars, lines }
    }

    /// The text of the line with the given index, terminator included;
    /// `None` past the last line.
    pub fn line(&self, idx: usize) -> (r: Option<String>)
        ensures
            r is Some <==> idx < self.spec_lines().len(),
            r matches Some(t) ==> t@ == self.spec_chars().subrange(
                self.spec_lines()[idx as int].0 as int,
                self.spec_lines()[idx as int].1 as int,
            ),
    {
        proof {
            use_type_invariant(self);
        }
        if idx < self.lines.len() {
            let range = self.lines[idx];
            proof {
                assert(self.spec_lines()[idx as int].1 <= self.spec_chars().len());
            }
            let mut out: Vec<char> = Vec::new();
            let mut k: usize = range.0;
            while k < range.1
                invariant
                    range.0 <= k <= range.1,
                    range.1 <= self.spec_chars().len(),
                    out@ == self.spec_chars().subrange(range.0 as int, k as int),
                decreases range.1 - k,
            {
                out.push(self.chars[k]);
                proof {
                    assert(self.spec_chars().subrange(range.0 as int, k + 1)
                        =~= self.spec_chars().subrange(range.0 as int, k as int).push(
                        self.spec_chars()[k as int],
                    ));
                }
                k = k + 1;
            }
            Some(chars_to_string(&out))
        } else {
            None
        }
    }

    /// Line ranges stay within the text.
    #[verifier::type_invariant]
    pub open spec fn wf(&self) -> bool {
        forall|i: int|
            0 <= i < self.spec_lines().len() ==> (#[trigger] self.spec_lines()[i]).0
                <= self.spec_lines()[i].1 <= self.spec_chars().len()
    }
}

/// A cache over a fixed list of identified, named sources.
pub struct NamedCache<Id> {
    pub(crate) entries: Vec<(Id, String, crate::source::Source)>,
}

impl<Id> NamedCache<Id> {
    /// The entries of the cache: identifier, display name, source.
    pub open(crate) spec fn spec_entries(&self) -> Seq<(Id, String, crate::source::Source)> {
        self.entries@
    }
}

impl<Id: PartialEq> NamedCache<Id> {
    /// The entry that serves the given identifier: the last one whose
    /// identifier equals it, or none. The choice is pinned whenever the
    /// identifier's equality obeys its standard specification.
    pub fn lookup(&self, id: &Id) -> (r: Option<usize>)
        ensures
            r matches Some(k) ==> k < self.spec_entries().len(),
            <Id as vstd::std_specs::cmp::PartialEqSpec>::obeys_eq_spec() ==> {
                &&& (r is Some <==> exists|k: int|
                    0 <= k < self.spec_entries().len() && id.eq_spec(
                        &(#[trigger] self.spec_entries()[k]).0,
                    ))
                &&& (r matches Some(ki) ==> id.eq_spec(&self.spec_entries()[ki as int].0) && (
                forall|k: int|
                    ki < k < self.spec_entries().len() ==> !id.eq_spec(
                        &(#[trigger] self.spec_entries()[k]).0,
                    )))
            },
    {
        let ghost obeys = <Id as vstd::std_specs::cmp::PartialEqSpec>::obeys_eq_spec();
        let mut i: usize = self.entries.len();
        while i > 0
            invariant
                obeys == <Id as vstd::std_specs::cmp::PartialEqSpec>::obeys_eq_spec(),
                i <= self.spec_entries().len(),
                obeys ==> forall|k: int|
                    i <= k < self.spec_entries().len() ==> !id.eq_spec(
                        &(#[trigger] self.spec_entries()[k]).0,
                    ),
            decreases i,
        {
            i = i - 1;
            if *id == self.entries[i].0 {
                return Some(i);
            }
        }
        None
    }
}

impl<Id: PartialEq> crate::source::Cache<Id> for NamedCache<Id> {
    /// Fetch through [`NamedCache::lookup`]; a later entry with the same
    /// identifier overrides an earlier one. A miss reports a placeholder,
    /// as the identifier's name is unknown to this cache.
    fn fetch(&mut self, id: &Id) -> Result<crate::source::Source, String> {
        match self.lookup(id) {
            Some(k) => Ok(self.entries[k].2.duplicate()),
            None => {
                let mut msg: Vec<char> = str_chars("Failed to fetch source ");
                let unknown = str_chars("<unknown>");
                crate::text::push_chars(&mut msg, &unknown);
                Err(chars_to_string(&msg))
            },
        }
    }

    /// The stored name of the identifier, through [`NamedCache::lookup`].
    fn display(&self, id: &Id) -> Option<String> {
        match self.lookup(id) {
            Some(k) => Some(self.entries[k].1.clone()),
            None => None,
        }
    }
}

/// A cache over a list of named sources: each entry is an identifier, the
/// name to print for it, and its text.
pub fn files<Id: PartialEq>(list: Vec<(Id, String, String)>) -> (r: NamedCache<Id>)
    ensures
        r.spec_entries().len() == list@.len(),
        forall|k: int|
            0 <= k < list@.len() ==> (#[trigger] r.spec_entries()[k]).0 == list@[k].0
                && r.spec_entries()[k].1@ == list@[k].1@ && r.spec_entries()[k].2.wf()
                && r.spec_entries()[k].2.spec_chars() == list@[k].2@,
{
    let ghost all = list@;
    let mut entries: Vec<(Id, String, crate::source::Source)> = Vec::new();
    let mut rest = list;
    while rest.len() > 0
        invariant
            rest@.len() <= all.len(),
            rest@ == all.skip(all.len() - rest@.len()),
            entries@.len() == all.len() - rest@.len(),
            forall|k: int|
                0 <= k < entries@.len() ==> (#[trigger] entries@[k]).0 == all[k].0 && entries@[
                k].1@ == all[k].1@ && entries@[k].2.wf() && entries@[k].2.spec_chars()
                    == all[k].2@,
        decreases rest@.len(),
    {
        let ghost k = all.len() - rest@.len();
        let e = rest.remove(0);
        proof {
            assert(e == all[k]);
            assert(rest@ =~= all.skip(k + 1));
        }
        let src = crate::source::Source::from(e.2.as_str());
        entries.push((e.0, e.1, src));
    }
    NamedCache { entries }
}

} // verus!
