use vstd::prelude::*;

use crate::eval::opt_view;

verus! {

/// A managed file: where its source lies, and where it is linked to, if
/// anywhere. Paths are held as text.
#[derive(Debug, Clone, PartialEq, Eq, Hash)]
pub struct LinkedFile {
    pub source: String,
    pub destination: Option<String>,
}

impl View for LinkedFile {
    type V = (Seq<char>, Option<Seq<char>>);

    open spec fn view(&self) -> (Seq<char>, Option<Seq<char>>) {
        (self.source@, opt_view(self.destination))
    }
}

/// The persisted configuration: the home directory, the managed files, and
/// the state of the version-control repository.
#[derive(Debug, Clone)]
pub struct ConfigFile {
    pub home_path: String,
    pub managed_paths: Vec<LinkedFile>,
    pub remote_url: Option<String>,
    pub git_init: bool,
}

/// What `apply` does with one managed file.
#[derive(Debug, Clone, Copy, PartialEq, Eq)]
pub enum ApplyAction {
    /// Its source file is missing.
    SkipMissingSource,
    /// Its source file is empty.
    SkipEmptySource,
    /// Its link destination is already taken.
    SkipDestinationExists,
    /// It has no link destination and is not a source file of the engine.
    SkipUnlinked,
    /// Render it as a template and write it to its destination.
    Template,
    /// Evaluate it as a source file; nothing is written.
    Source,
}

fn clone_opt(o: &Option<String>) -> (r: Option<String>)
    ensures
        opt_view(r) == opt_view(*o),
{
    match o {
        Some(s) => Some(s.clone()),
        None => None,
    }
}

fn same_opt(a: &Option<String>, b: &Option<String>) -> (r: bool)
    ensures
        r == (opt_view(*a) == opt_view(*b)),
{
    match (a, b) {
        (Some(x), Some(y)) => *x == *y,
        (None, None) => true,
        _ => false,
    }
}

impl LinkedFile {
    pub fn new(source: String, destination: Option<String>) -> (r: Self)
        ensures
            r.source@ == source@,
            opt_view(r.destination) == opt_view(destination),
    {
        LinkedFile { source, destination }
    }

    /// Whether two entries name the same source and the same destination.
    pub fn same_as(&self, other: &LinkedFile) -> (r: bool)
        ensures
            r == (self@ == other@),
    {
        self.source == other.source && same_opt(&self.destination, &other.destination)
    }
}

/// No two entries of `items` are equal.
pub open spec fn all_distinct(items: Seq<LinkedFile>) -> bool {
    forall|i: int, j: int| 0 <= i < j < items.len() ==> items[i]@ != items[j]@
}

/// Whether every entry of `items` differs from all the others.
pub fn has_unique_elements(items: &Vec<LinkedFile>) -> (r: bool)
    ensures
        r == all_distinct(items@),
{
    let n = items.len();
    for j in 0..n
        invariant
            n == items.len(),
            forall|a: int, b: int| 0 <= a < b < j ==> items[a]@ != items[b]@,
    {
        for i in 0..j
            invariant
                j < n == items.len(),
                forall|a: int, b: int| 0 <= a < b < j ==> items[a]@ != items[b]@,
                forall|a: int| 0 <= a < i ==> items[a]@ != items[j as int]@,
        {
            if items[i].same_as(&items[j]) {
                return false;
            }
        }
    }
    true
}

/// The home directory that a configuration names.
pub fn home_dir(config: &ConfigFile) -> (r: String)
    ensures
        r@ == config.home_path@,
{
    config.home_path.clone()
}

/// Decides what `apply` does with one managed file, from what is known of it
/// on disk: `destination_exists` is `None` where the entry has no link
/// destination.
pub fn classify_entry(
    source_exists: bool,
    source_empty: bool,
    destination_exists: Option<bool>,
    engine_source: bool,
) -> (r: ApplyAction)
    ensures
        r == (if !source_exists {
            ApplyAction::SkipMissingSource
        } else if source_empty {
            ApplyAction::SkipEmptySource
        } else {
            match destination_exists {
                Some(true) => ApplyAction::SkipDestinationExists,
                Some(false) => ApplyAction::Template,
                None => if engine_source {
                    ApplyAction::Source
                } else {
                    ApplyAction::SkipUnlinked
                },
            }
        }),
{
    if !source_exists {
        return ApplyAction::SkipMissingSource;
    }
    if source_empty {
        return ApplyAction::SkipEmptySource;
    }
    match destination_exists {
        Some(true) => ApplyAction::SkipDestinationExists,
        Some(false) => ApplyAction::Template,
        None => if engine_source {
            ApplyAction::Source
        } else {
            ApplyAction::SkipUnlinked
        },
    }
}

/// What linking a managed file to a destination came to.
#[derive(Debug, Clone, Copy, PartialEq, Eq)]
pub enum LinkOutcome {
    /// No entry has that source; nothing changed.
    NotManaged,
    /// The entry was linked; it had no destination before.
    Linked,
    /// The entry was linked in place of an earlier destination.
    Relinked,
    /// More than one entry has that source; nothing changed.
    DuplicateSource,
}

impl ConfigFile {
    /// A configuration with the given home directory and nothing managed.
    pub fn new(home_path: String) -> (r: Self)
        ensures
            r.home_path@ == home_path@,
            r.managed_paths@.len() == 0,
            r.remote_url is None,
            !r.git_init,
    {
        ConfigFile { home_path, managed_paths: Vec::new(), remote_url: None, git_init: false }
    }

    /// The source and destination of each managed file, in order.
    pub fn paths_iter(&self) -> (r: Vec<(String, Option<String>)>)
        ensures
            r@.len() == self.managed_paths@.len(),
            forall|i: int|
                0 <= i < r@.len() ==> (#[trigger] r@[i]).0@ == self.managed_paths@[i].source@
                    && opt_view(r@[i].1) == opt_view(self.managed_paths@[i].destination),
    {
        let mut r: Vec<(String, Option<String>)> = Vec::new();
        let n = self.managed_paths.len();
        for i in 0..n
            invariant
                n == self.managed_paths.len(),
                r@.len() == i,
                forall|k: int|
                    0 <= k < i ==> (#[trigger] r@[k]).0@ == self.managed_paths@[k].source@
                        && opt_view(r@[k].1) == opt_view(self.managed_paths@[k].destination),
        {
            let f = &self.managed_paths[i];
            r.push((f.source.clone(), clone_opt(&f.destination)));
        }
        r
    }

    /// Removes the link destination of every entry whose source is `source`.
    pub fn unlink_source(&mut self, source: &String)
        ensures
            final(self).home_path == old(self).home_path,
            final(self).remote_url == old(self).remote_url,
            final(self).git_init == old(self).git_init,
            final(self).managed_paths@.len() == old(self).managed_paths@.len(),
            forall|i: int|
                0 <= i < final(self).managed_paths@.len() ==> #[trigger] final(self).managed_paths@[i]@
                    == if old(self).managed_paths@[i].source@ == source@ {
                    (source@, None::<Seq<char>>)
                } else {
                    old(self).managed_paths@[i]@
                },
    {
        let n = self.managed_paths.len();
        for i in 0..n
            invariant
                n == self.managed_paths.len(),
                self.home_path == old(self).home_path,
                self.remote_url == old(self).remote_url,
                self.git_init == old(self).git_init,
                self.managed_paths@.len() == old(self).managed_paths@.len(),
                forall|k: int|
                    0 <= k < n ==> (#[trigger] self.managed_paths@[k])@ == if k < i
                        && old(self).managed_paths@[k].source@ == source@ {
                        (source@, None::<Seq<char>>)
                    } else {
                        old(self).managed_paths@[k]@
                    },
        {
            if self.managed_paths[i].source == *source {
                let entry = LinkedFile::new(source.clone(), None);
                self.managed_paths.set(i, entry);
            }
        }
    }

    /// The position of the first entry whose source is `source`, if any.
    pub fn find_source(&self, source: &String) -> (r: Option<usize>)
        ensures
            match r {
                Some(i) => i < self.managed_paths@.len() && self.managed_paths@[i as int].source@
                    == source@ && forall|k: int|
                    0 <= k < i ==> self.managed_paths@[k].source@ != source@,
                None => forall|k: int|
                    0 <= k < self.managed_paths@.len() ==> self.managed_paths@[k].source@
                        != source@,
            },
    {
        let n = self.managed_paths.len();
        for i in 0..n
            invariant
                n == self.managed_paths.len(),
                forall|k: int| 0 <= k < i ==> self.managed_paths@[k].source@ != source@,
        {
            if self.managed_paths[i].source == *source {
                return Some(i);
            }
        }
        None
    }

    /// Removes the first entry whose source is `source`, and tells whether
    /// there was one.
    pub fn remove_source(&mut self, source: &String) -> (r: bool)
        ensures
            final(self).home_path == old(self).home_path,
            final(self).remote_url == old(self).remote_url,
            final(self).git_init == old(self).git_init,
            r == exists|k: int|
                0 <= k < old(self).managed_paths@.len() && old(self).managed_paths@[k].source@
                    == source@,
            r ==> exists|i: int|
                0 <= i < old(self).managed_paths@.len() && old(self).managed_paths@[i].source@
                    == source@ && (forall|k: int|
                    0 <= k < i ==> old(self).managed_paths@[k].source@ != source@)
                    && final(self).managed_paths@ == old(self).managed_paths@.remove(i),
            !r ==> final(self).managed_paths@ == old(self).managed_paths@,
    {
        match self.find_source(source) {
            Some(i) => {
                self.managed_paths.remove(i);
                true
            },
            None => false,
        }
    }

    /// Links the entry whose source is `source` to `destination`. Nothing
    /// changes where no entry, or more than one, has that source.
    pub fn link_source(&mut self, source: &String, destination: String) -> (r: LinkOutcome)
        ensures
            final(self).home_path == old(self).home_path,
            final(self).remote_url == old(self).remote_url,
            final(self).git_init == old(self).git_init,
            match r {
                LinkOutcome::NotManaged => (forall|k: int|
                    0 <= k < old(self).managed_paths@.len() ==> old(self).managed_paths@[k].source@
                        != source@) && final(self).managed_paths@ == old(self).managed_paths@,
                LinkOutcome::DuplicateSource => (exists|a: int, b: int|
                    0 <= a < b < old(self).managed_paths@.len()
                        && old(self).managed_paths@[a].source@ == source@
                        && old(self).managed_paths@[b].source@ == source@)
                    && final(self).managed_paths@ == old(self).managed_paths@,
                _ => exists|i: int|
                    0 <= i < old(self).managed_paths@.len() && old(self).managed_paths@[i].source@
                        == source@ && (forall|k: int|
                        0 <= k < old(self).managed_paths@.len() && k != i
                            ==> old(self).managed_paths@[k].source@ != source@)
                        && (r == LinkOutcome::Linked
                    <==> old(self).managed_paths@[i].destination is None)
                        && final(self).managed_paths@.len() == old(self).managed_paths@.len()
                        && final(self).managed_paths@[i]@ == (source@, Some(destination@))
                        && forall|k: int|
                        0 <= k < old(self).managed_paths@.len() && k != i
                            ==> final(self).managed_paths@[k] == old(self).managed_paths@[k],
            },
    {
        let i = match self.find_source(source) {
            Some(i) => i,
            None => {
                return LinkOutcome::NotManaged;
            },
        };
        let n = self.managed_paths.len();
        for j in i + 1..n
            invariant
                n == self.managed_paths.len(),
                i < n,
                self.managed_paths@[i as int].source@ == source@,
                forall|k: int| 0 <= k < j && k != i ==> self.managed_paths@[k].source@ != source@,
        {
            if self.managed_paths[j].source == *source {
                return LinkOutcome::DuplicateSource;
            }
        }
        let r = if self.managed_paths[i].destination.is_none() {
            LinkOutcome::Linked
        } else {
            LinkOutcome::Relinked
        };
        let ghost d = destination@;
        let entry = LinkedFile::new(source.clone(), Some(destination));
        self.managed_paths.set(i, entry);
        assert(self.managed_paths@[i as int]@ == (source@, Some(d)));
        r
    }
}

} // verus!
