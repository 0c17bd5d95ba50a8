//! Tag files: the names that mark a directory, what is kept of a marked
//! directory, and the decision taken for one directory from the names of
//! its children.

use crate::error::ExclusionConfigError;
use crate::path::{byte_strings, same_bytes, to_vec};
use vstd::prelude::*;
use vstd::string::StrSliceExecFns;

verus! {

/// What is kept of a directory that holds a tag file.
#[derive(Clone, Copy, Debug, PartialEq, Eq, Structural)]
pub enum TagKeepMode {
    /// Keep the tagged directory with only the tag inside.
    Tag,
    /// Keep the tagged directory with nothing inside.
    Dir,
    /// Do not keep the tagged directory at all.
    Nothing,
}

/// `c` in lower case, where it is an upper-case ASCII letter.
pub open spec fn lower_char(c: char) -> char {
    if 0x41 <= c as u32 <= 0x5a {
        (c as u32 + 32) as char
    } else {
        c
    }
}

/// `s` with its ASCII letters in lower case.
pub open spec fn lowered(s: Seq<char>) -> Seq<char> {
    Seq::new(s.len(), |i: int| lower_char(s[i]))
}

/// The word that names a keep mode.
pub open spec fn mode_word(mode: TagKeepMode) -> Seq<char> {
    match mode {
        TagKeepMode::Tag => seq!['t', 'a', 'g'],
        TagKeepMode::Dir => seq!['d', 'i', 'r'],
        TagKeepMode::Nothing => seq!['n', 'o', 'n', 'e'],
    }
}

/// The ways to write what may stand between `keep` and the mode's word:
/// nothing, a hyphen, a space or an underscore.
pub open spec fn mode_infix(k: int) -> Seq<char> {
    if k == 1 {
        seq!['-']
    } else if k == 2 {
        seq![' ']
    } else if k == 3 {
        seq!['_']
    } else {
        Seq::<char>::empty()
    }
}

/// The `k`-th spelling of `mode`, for `k` from 0 to 3.
pub open spec fn spelling(mode: TagKeepMode, k: int) -> Seq<char> {
    seq!['k', 'e', 'e', 'p'] + mode_infix(k) + mode_word(mode)
}

/// Whether `s` spells `mode`, in any case of its letters.
pub open spec fn spells(s: Seq<char>, mode: TagKeepMode) -> bool {
    exists|k: int| 0 <= k < 4 && lowered(s) == #[trigger] spelling(mode, k)
}

/// The keep mode that `s` spells, if it spells one.
pub open spec fn parsed_mode(s: Seq<char>) -> Option<TagKeepMode> {
    if spells(s, TagKeepMode::Tag) {
        Some(TagKeepMode::Tag)
    } else if spells(s, TagKeepMode::Dir) {
        Some(TagKeepMode::Dir)
    } else if spells(s, TagKeepMode::Nothing) {
        Some(TagKeepMode::Nothing)
    } else {
        None
    }
}

/// Whether `c` in lower case is `l`.
fn folds_to(c: char, l: char) -> (b: bool)
    ensures
        b == (lower_char(c) == l),
{
    let n = c as u32;
    if 0x41 <= n && n <= 0x5a {
        n + 32 == l as u32
    } else {
        c == l
    }
}

/// Whether `s` in lower case is `word`.
fn lowered_is(s: &str, word: &Vec<char>) -> (b: bool)
    ensures
        b == (lowered(s@) == word@),
{
    let n = s.unicode_len();
    if n != word.len() {
        return false;
    }
    let mut i: usize = 0;
    while i < n
        invariant
            i <= n,
            n == s@.len(),
            n == word.len(),
            forall|k: int| 0 <= k < i ==> lowered(s@)[k] == word@[k],
        decreases n - i,
    {
        if !folds_to(s.get_char(i), word[i]) {
            assert(lowered(s@)[i as int] != word@[i as int]);
            return false;
        }
        i += 1;
    }
    assert(lowered(s@) =~= word@);
    true
}

/// The `k`-th spelling of `mode`.
fn spelling_of(mode: TagKeepMode, k: u8) -> (word: Vec<char>)
    requires
        k < 4,
    ensures
        word@ == spelling(mode, k as int),
{
    let mut word: Vec<char> = vec!['k', 'e', 'e', 'p'];
    if k == 1 {
        word.push('-');
    } else if k == 2 {
        word.push(' ');
    } else if k == 3 {
        word.push('_');
    }
    assert(word@ =~= seq!['k', 'e', 'e', 'p'] + mode_infix(k as int));
    match mode {
        TagKeepMode::Tag => {
            word.push('t');
            word.push('a');
            word.push('g');
        },
        TagKeepMode::Dir => {
            word.push('d');
            word.push('i');
            word.push('r');
        },
        TagKeepMode::Nothing => {
            word.push('n');
            word.push('o');
            word.push('n');
            word.push('e');
        },
    }
    assert(word@ =~= spelling(mode, k as int));
    word
}

/// Whether `s` spells `mode`.
fn spells_mode(s: &str, mode: TagKeepMode) -> (b: bool)
    ensures
        b == spells(s@, mode),
{
    let mut k: u8 = 0;
    while k < 4
        invariant
            k <= 4,
            forall|j: int| 0 <= j < k ==> lowered(s@) != #[trigger] spelling(mode, j),
        decreases 4 - k,
    {
        let word = spelling_of(mode, k);
        if lowered_is(s, &word) {
            return true;
        }
        k += 1;
    }
    false
}

impl TagKeepMode {
    /// Reads a keep mode from its configured spelling: `keep`, then
    /// nothing, `-`, a space or `_`, then `tag`, `dir` or `none`, in any
    /// case.
    pub fn parse(s: &str) -> (r: Result<TagKeepMode, ExclusionConfigError>)
        ensures
            match parsed_mode(s@) {
                Some(mode) => r == Ok::<TagKeepMode, ExclusionConfigError>(mode),
                None => r matches Err(e) && e is UnknownTagMode,
            },
    {
        if spells_mode(s, TagKeepMode::Tag) {
            Ok(TagKeepMode::Tag)
        } else if spells_mode(s, TagKeepMode::Dir) {
            Ok(TagKeepMode::Dir)
        } else if spells_mode(s, TagKeepMode::Nothing) {
            Ok(TagKeepMode::Nothing)
        } else {
            Err(ExclusionConfigError::UnknownTagMode)
        }
    }
}

/// One tag rule: a file name and what is kept of a directory that holds
/// a file of that name.
pub struct TagRule {
    pub name: Vec<u8>,
    pub mode: TagKeepMode,
}

/// The mode of the first rule from `from` on that names `name`.
pub open spec fn lookup_from(rules: Seq<TagRule>, name: Seq<u8>, from: int) -> Option<TagKeepMode>
    decreases rules.len() - from,
{
    if from < 0 || from >= rules.len() {
        None
    } else if rules[from].name@ == name {
        Some(rules[from].mode)
    } else {
        lookup_from(rules, name, from + 1)
    }
}

/// The tag rules of a run: a map from file names to keep modes.
pub struct TagRules {
    rules: Vec<TagRule>,
}

impl View for TagRules {
    type V = Map<Seq<u8>, TagKeepMode>;

    closed spec fn view(&self) -> Map<Seq<u8>, TagKeepMode> {
        Map::new(
            |name: Seq<u8>| lookup_from(self.rules@, name, 0) is Some,
            |name: Seq<u8>| lookup_from(self.rules@, name, 0)->0,
        )
    }
}

/// A lookup behind a name that differs skips nothing that matters; one
/// behind the sought name finds that rule.
proof fn lemma_lookup_update(rules: Seq<TagRule>, updated: Seq<TagRule>, at: int, name: Seq<u8>, from: int)
    requires
        0 <= from <= at < rules.len(),
        updated.len() == rules.len(),
        forall|k: int| 0 <= k < rules.len() && k != at ==> updated[k] == rules[k],
        updated[at].name@ == rules[at].name@,
        forall|k: int| from <= k < at ==> rules[k].name@ != rules[at].name@,
    ensures
        lookup_from(updated, name, from) == (if name == rules[at].name@ {
            Some(updated[at].mode)
        } else {
            lookup_from(rules, name, from)
        }),
    decreases at - from,
{
    if from < at {
        lemma_lookup_update(rules, updated, at, name, from + 1);
    } else {
        lemma_lookup_same_tail(rules, updated, name, at + 1);
    }
}

/// Lookups agree where the rules agree.
proof fn lemma_lookup_same_tail(rules: Seq<TagRule>, updated: Seq<TagRule>, name: Seq<u8>, from: int)
    requires
        0 <= from <= rules.len(),
        updated.len() == rules.len(),
        forall|k: int| from <= k < rules.len() ==> updated[k] == rules[k],
    ensures
        lookup_from(updated, name, from) == lookup_from(rules, name, from),
    decreases rules.len() - from,
{
    if from < rules.len() {
        lemma_lookup_same_tail(rules, updated, name, from + 1);
    }
}

/// A lookup in rules with one more at the end finds what it found
/// before, or else the new rule.
proof fn lemma_lookup_push(rules: Seq<TagRule>, rule: TagRule, name: Seq<u8>, from: int)
    requires
        0 <= from <= rules.len(),
    ensures
        lookup_from(rules.push(rule), name, from) == (match lookup_from(rules, name, from) {
            Some(mode) => Some(mode),
            None => if rule.name@ == name {
                Some(rule.mode)
            } else {
                None
            },
        }),
    decreases rules.len() - from,
{
    let pushed = rules.push(rule);
    if from < rules.len() {
        lemma_lookup_push(rules, rule, name, from + 1);
        assert(pushed[from] == rules[from]);
    } else {
        assert(pushed[from] == rule);
        assert(lookup_from(pushed, name, from + 1) is None);
    }
}

impl TagRules {
    /// No rules.
    pub fn new() -> (rules: Self)
        ensures
            rules@ == Map::<Seq<u8>, TagKeepMode>::empty(),
    {
        let rules = TagRules { rules: Vec::new() };
        assert(rules@ =~= Map::<Seq<u8>, TagKeepMode>::empty());
        rules
    }

    /// The index of the first rule that names `name`, or the number of
    /// rules.
    fn position(&self, name: &[u8]) -> (at: usize)
        ensures
            at <= self.rules.len(),
            forall|k: int| 0 <= k < at ==> self.rules[k].name@ != name@,
            at < self.rules.len() ==> self.rules[at as int].name@ == name@,
            lookup_from(self.rules@, name@, 0) == lookup_from(self.rules@, name@, at as int),
    {
        let mut at: usize = 0;
        while at < self.rules.len()
            invariant
                at <= self.rules.len(),
                forall|k: int| 0 <= k < at ==> self.rules[k].name@ != name@,
                lookup_from(self.rules@, name@, 0) == lookup_from(self.rules@, name@, at as int),
            decreases self.rules.len() - at,
        {
            if same_bytes(self.rules[at].name.as_slice(), name) {
                return at;
            }
            at += 1;
        }
        at
    }

    /// The keep mode of the tag `name`, if `name` is a tag.
    pub fn get(&self, name: &[u8]) -> (mode: Option<TagKeepMode>)
        ensures
            mode == (if self@.contains_key(name@) {
                Some(self@[name@])
            } else {
                None
            }),
    {
        let at = self.position(name);
        if at < self.rules.len() {
            Some(self.rules[at].mode)
        } else {
            None
        }
    }

    /// Makes `name` a tag with the keep mode `mode`, in place of the mode
    /// it had if it was one.
    pub fn insert(&mut self, name: Vec<u8>, mode: TagKeepMode)
        ensures
            final(self)@ == old(self)@.insert(name@, mode),
    {
        let at = self.position(name.as_slice());
        let ghost before = self.rules@;
        let rule = TagRule { name, mode };
        if at < self.rules.len() {
            self.rules.set(at, rule);
            assert forall|n: Seq<u8>|
                lookup_from(self.rules@, n, 0) == (if n == name@ {
                    Some(mode)
                } else {
                    lookup_from(before, n, 0)
                }) by {
                lemma_lookup_update(before, self.rules@, at as int, n, 0);
            }
        } else {
            self.rules.push(rule);
            assert forall|n: Seq<u8>|
                lookup_from(self.rules@, n, 0) == (if n == name@ {
                    Some(mode)
                } else {
                    lookup_from(before, n, 0)
                }) by {
                lemma_lookup_push(before, rule, n, 0);
            }
        }
        assert(self@ =~= old(self)@.insert(name@, mode));
    }
}

/// What is kept of a directory, decided from its children.
#[derive(Clone, Copy, Debug, PartialEq, Eq, Structural)]
pub enum KeepMode {
    /// A tag was found: nothing is kept, not even the directory.
    Nothing,
    /// A tag was found: the directory is kept, none of its children.
    Dir,
    /// A tag was found: the directory and the tag file are kept.
    Tag,
    /// No tag was found: the directory and all its children are kept.
    Recurse,
}

/// The decision taken for one directory.
pub struct DirectoryDecision {
    /// The names of the children that stay, in filesystem order.
    pub entries_to_recurse: Vec<Vec<u8>>,
    /// What is kept of the directory.
    pub keep_mode: KeepMode,
}

/// The index of the first name from `from` on that is a tag, or the
/// number of names.
pub open spec fn first_tagged(names: Seq<Seq<u8>>, tags: Map<Seq<u8>, TagKeepMode>, from: int) -> int
    decreases names.len() - from,
{
    if from < 0 || from >= names.len() {
        names.len() as int
    } else if tags.contains_key(names[from]) {
        from
    } else {
        first_tagged(names, tags, from + 1)
    }
}

/// The decision for a directory whose children are `names`, in
/// filesystem order: the first child that is a tag decides by its keep
/// mode; without one, every child stays.
pub open spec fn decided(names: Seq<Seq<u8>>, tags: Map<Seq<u8>, TagKeepMode>) -> (
    Seq<Seq<u8>>,
    KeepMode,
) {
    let i = first_tagged(names, tags, 0);
    if i >= names.len() {
        (names, KeepMode::Recurse)
    } else {
        match tags[names[i]] {
            TagKeepMode::Nothing => (Seq::<Seq<u8>>::empty(), KeepMode::Nothing),
            TagKeepMode::Dir => (Seq::<Seq<u8>>::empty(), KeepMode::Dir),
            TagKeepMode::Tag => (seq![names[i]], KeepMode::Tag),
        }
    }
}

/// Decides what is kept of a directory from the names of its children,
/// given in filesystem order.
pub fn classify_directory(entries: Vec<Vec<u8>>, tags: &TagRules) -> (d: DirectoryDecision)
    ensures
        (byte_strings(d.entries_to_recurse@), d.keep_mode) == decided(byte_strings(entries@), tags@),
{
    let ghost names = byte_strings(entries@);
    let mut i: usize = 0;
    while i < entries.len()
        invariant
            i <= entries.len(),
            names == byte_strings(entries@),
            first_tagged(names, tags@, 0) == first_tagged(names, tags@, i as int),
        decreases entries.len() - i,
    {
        match tags.get(entries[i].as_slice()) {
            Some(mode) => {
                assert(names[i as int] == entries[i as int]@);
                let mut kept: Vec<Vec<u8>> = Vec::new();
                let keep_mode = match mode {
                    TagKeepMode::Nothing => KeepMode::Nothing,
                    TagKeepMode::Dir => KeepMode::Dir,
                    TagKeepMode::Tag => {
                        kept.push(to_vec(entries[i].as_slice()));
                        KeepMode::Tag
                    },
                };
                assert(byte_strings(kept@) =~= decided(names, tags@).0);
                return DirectoryDecision { entries_to_recurse: kept, keep_mode };
            },
            None => {
                assert(names[i as int] == entries[i as int]@);
            },
        }
        i += 1;
    }
    DirectoryDecision { entries_to_recurse: entries, keep_mode: KeepMode::Recurse }
}

} // verus!
