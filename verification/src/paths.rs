//! Paths by what they name: spellings that differ only in repeated separators,
//! in `.` components or in a trailing separator name the same file.

use vstd::prelude::*;
use vstd::string::StrSliceExecFns;

verus! {

/// The components of a path.
#[derive(Debug, PartialEq, Eq)]
pub struct PathKey {
    /// The path starts at the root.
    pub absolute: bool,
    /// The path starts with a `.` component.
    pub from_here: bool,
    /// The other components.
    pub names: Vec<Vec<char>>,
}

/// A [`PathKey`] as a value.
#[verifier::ext_equal]
pub struct PathView {
    pub absolute: bool,
    pub from_here: bool,
    pub names: Seq<Seq<char>>,
}

impl View for PathKey {
    type V = PathView;

    open spec fn view(&self) -> PathView {
        PathView {
            absolute: self.absolute,
            from_here: self.from_here,
            names: self.names@.map_values(|n: Vec<char>| n@),
        }
    }
}

/// What stands between the separators of `path`.
pub open spec fn segments(path: Seq<char>) -> Seq<Seq<char>>
    decreases path.len(),
{
    if path.len() == 0 {
        seq![Seq::empty()]
    } else {
        let before = segments(path.drop_last());
        if path.last() == '/' {
            before.push(Seq::empty())
        } else {
            before.drop_last().push(before.last().push(path.last()))
        }
    }
}

/// A segment that is a component wherever it stands.
pub open spec fn is_name(segment: Seq<char>) -> bool {
    segment.len() > 0 && segment != seq!['.']
}

/// The components of `path`. A `.` counts only where a relative path starts
/// with it.
pub open spec fn path_of(path: Seq<char>) -> PathView {
    let absolute = path.len() > 0 && path[0] == '/';
    PathView {
        absolute,
        from_here: !absolute && segments(path)[0] == seq!['.'],
        names: segments(path).filter(|s: Seq<char>| is_name(s)),
    }
}

/// What stands between the separators of `path`.
fn split(path: &str) -> (parts: Vec<Vec<char>>)
    ensures
        parts@.map_values(|p: Vec<char>| p@) == segments(path@),
        parts@.len() > 0,
{
    let mut done: Vec<Vec<char>> = Vec::new();
    let mut current: Vec<char> = Vec::new();
    let len: usize = path.unicode_len();
    let mut i: usize = 0;
    proof {
        assert(path@.take(0) =~= Seq::<char>::empty());
        assert(done@.map_values(|p: Vec<char>| p@).push(current@) =~= seq![Seq::<char>::empty()]);
    }
    while i < len
        invariant
            i <= len,
            len == path@.len(),
            done@.map_values(|p: Vec<char>| p@).push(current@) == segments(path@.take(i as int)),
        decreases len - i,
    {
        let c = path.get_char(i);
        let ghost before = done@.map_values(|p: Vec<char>| p@).push(current@);
        proof {
            assert(path@.take(i + 1).drop_last() =~= path@.take(i as int));
            assert(before.drop_last() =~= done@.map_values(|p: Vec<char>| p@));
        }
        if c == '/' {
            done.push(current);
            current = Vec::new();
            assert(done@.map_values(|p: Vec<char>| p@) =~= before);
            assert(current@ =~= Seq::<char>::empty());
        } else {
            current.push(c);
        }
        i = i + 1;
    }
    assert(path@.take(len as int) =~= path@);
    let ghost all = done@.map_values(|p: Vec<char>| p@).push(current@);
    done.push(current);
    assert(done@.map_values(|p: Vec<char>| p@) =~= all);
    done
}

/// Whether two texts are equal.
fn same_chars(a: &Vec<char>, b: &Vec<char>) -> (same: bool)
    ensures
        same == (a@ == b@),
{
    if a.len() != b.len() {
        return false;
    }
    let mut i: usize = 0;
    while i < a.len()
        invariant
            i <= a.len(),
            a.len() == b.len(),
            forall|j: int| 0 <= j < i ==> a@[j] == b@[j],
        decreases a.len() - i,
    {
        if a[i] != b[i] {
            assert(a@[i as int] != b@[i as int]);
            return false;
        }
        i = i + 1;
    }
    assert(a@ =~= b@);
    true
}

impl PathKey {
    /// The components of `path`.
    pub fn of(path: &str) -> (key: PathKey)
        ensures
            key@ == path_of(path@),
    {
        let parts = split(path);
        let ghost all = parts@.map_values(|p: Vec<char>| p@);
        let mut dot: Vec<char> = Vec::new();
        dot.push('.');
        assert(dot@ =~= seq!['.']);
        let absolute = path.unicode_len() > 0 && path.get_char(0) == '/';
        let from_here = !absolute && same_chars(&parts[0], &dot);
        assert(all[0] == parts@[0]@);
        let mut names: Vec<Vec<char>> = Vec::new();
        let ghost pred = |s: Seq<char>| is_name(s);
        proof {
            reveal(Seq::filter);
            assert(all.take(0).filter(pred) =~= Seq::<Seq<char>>::empty());
        }
        let mut i: usize = 0;
        while i < parts.len()
            invariant
                i <= parts.len(),
                dot@ == seq!['.'],
                pred == (|s: Seq<char>| is_name(s)),
                all == parts@.map_values(|p: Vec<char>| p@),
                names@.map_values(|n: Vec<char>| n@) == all.take(i as int).filter(pred),
            decreases parts.len() - i,
        {
            proof {
                reveal(Seq::filter);
                assert(all.take(i + 1).drop_last() =~= all.take(i as int));
                assert(all.take(i + 1).last() == parts@[i as int]@);
            }
            if parts[i].len() > 0 && !same_chars(&parts[i], &dot) {
                let ghost before = names@.map_values(|n: Vec<char>| n@);
                let name = copy_chars(&parts[i]);
                names.push(name);
                assert(names@.map_values(|n: Vec<char>| n@) =~= before.push(name@));
            }
            i = i + 1;
        }
        assert(all.take(all.len() as int) =~= all);
        PathKey { absolute, from_here, names }
    }

    /// Whether both have the same components.
    pub fn same(&self, other: &PathKey) -> (same: bool)
        ensures
            same == (self@ == other@),
    {
        if self.absolute != other.absolute || self.from_here != other.from_here {
            return false;
        }
        if self.names.len() != other.names.len() {
            assert(self@.names.len() != other@.names.len());
            return false;
        }
        let mut i: usize = 0;
        while i < self.names.len()
            invariant
                i <= self.names.len(),
                self.names.len() == other.names.len(),
                forall|j: int| 0 <= j < i ==> self.names[j]@ == other.names[j]@,
            decreases self.names.len() - i,
        {
            if !same_chars(&self.names[i], &other.names[i]) {
                assert(self@.names[i as int] != other@.names[i as int]);
                return false;
            }
            i = i + 1;
        }
        assert(self@.names =~= other@.names);
        true
    }
}

/// A copy of a text.
fn copy_chars(text: &Vec<char>) -> (copy: Vec<char>)
    ensures
        copy@ == text@,
{
    let mut copy: Vec<char> = Vec::new();
    let mut i: usize = 0;
    while i < text.len()
        invariant
            i <= text.len(),
            copy@ == text@.take(i as int),
        decreases text.len() - i,
    {
        copy.push(text[i]);
        assert(text@.take(i + 1) =~= text@.take(i as int).push(text@[i as int]));
        i = i + 1;
    }
    assert(text@.take(text@.len() as int) =~= text@);
    copy
}

} // verus!
