//! C++ symbol demangling and its application to instruction text.
use vstd::prelude::*;
use crate::error::AnnotateError;
use crate::types::Instruction;
use crate::order::{sorted_by, chars_order, insert_chars_sorted, lemma_chars_order_strict_total, lemma_sorted_unique};
use crate::paths::views;
use crate::text::{string_views, chars_of, string_of, chars_eq, copy_string, chars_contain, contains_seq, replace_chars, replace_spec, occurs_at, chars_occur_at, is_prefix};

verus! {

/// What `cpp_demangle` makes of a name: its demangled form when the name parses as an
/// Itanium C++ mangled symbol and demangles with the default options.
pub uninterp spec fn itanium_demangled(name: Seq<char>) -> Option<Seq<char>>;

/// Demangles `name` with `cpp_demangle`: `Symbol::new` on its bytes, then `Symbol::demangle`
/// with the default options.
///
/// The contract claims that the call succeeds exactly when `itanium_demangled` has a value
/// for the name, and then returns that value. Which of the two error variants comes back on
/// failure (parse or formatting) is not stated.
#[verifier::external_body]
fn cpp_demangle_name(name: &str) -> (r: Result<String, AnnotateError>)
    ensures
        r is Ok <==> itanium_demangled(name@) is Some,
        r matches Ok(s) ==> itanium_demangled(name@) == Some(s@),
        r matches Err(e) ==> e is DemangleSymbol || e is DemangleFormat,
{
    let sym = cpp_demangle::Symbol::new(name.as_bytes()).map_err(|_| AnnotateError::DemangleSymbol)?;
    sym.demangle(&cpp_demangle::DemangleOptions::default()).map_err(|_| AnnotateError::DemangleFormat)
}

/// A demangler of symbol names.
pub trait DemanglerBackend {
    fn demangle(&self, name: &str) -> Result<String, AnnotateError>;
}

/// Demangling of Itanium C++ names with `cpp_demangle`.
pub struct CppDemangleBackend;

impl DemanglerBackend for CppDemangleBackend {
    fn demangle(&self, name: &str) -> (r: Result<String, AnnotateError>)
        ensures
            r is Ok <==> itanium_demangled(name@) is Some,
            r matches Ok(s) ==> itanium_demangled(name@) == Some(s@),
    {
        cpp_demangle_name(name)
    }
}

/// Mangled names with their demangled forms, each mangled name once, in insertion order.
#[derive(Debug)]
pub struct DemangleMap {
    entries: Vec<(String, String)>,
}

/// The entries as character sequences.
pub open spec fn entry_views(e: Seq<(String, String)>) -> Seq<(Seq<char>, Seq<char>)> {
    e.map_values(|p: (String, String)| (p.0@, p.1@))
}

/// No key occurs twice.
pub open spec fn keys_unique(e: Seq<(Seq<char>, Seq<char>)>) -> bool {
    forall|i: int, j: int| 0 <= i < j < e.len() ==> #[trigger] e[i].0 != #[trigger] e[j].0
}

impl DemangleMap {
    /// The entries, in order.
    pub closed spec fn entries(&self) -> Seq<(Seq<char>, Seq<char>)> {
        entry_views(self.entries@)
    }

    #[verifier::type_invariant]
    closed spec fn wf(self) -> bool {
        keys_unique(entry_views(self.entries@))
    }

    /// The map as a `Map`.
    pub open spec fn as_map(&self) -> Map<Seq<char>, Seq<char>> {
        Map::new(
            |k: Seq<char>| exists|i: int| 0 <= i < self.entries().len() && #[trigger] self.entries()[i].0 == k,
            |k: Seq<char>| self.entries()[choose|i: int| 0 <= i < self.entries().len() && #[trigger] self.entries()[i].0 == k].1,
        )
    }

    /// An empty map.
    pub fn new() -> (r: DemangleMap)
        ensures
            r.entries().len() == 0,
    {
        DemangleMap { entries: Vec::new() }
    }

    /// Number of entries.
    pub fn len(&self) -> (r: usize)
        ensures
            r == self.entries().len(),
    {
        self.entries.len()
    }

    /// Whether there are no entries.
    pub fn is_empty(&self) -> (r: bool)
        ensures
            r == (self.entries().len() == 0),
    {
        self.entries.len() == 0
    }

    /// Maps `key` to `value`: replaces the value of an existing key in place, otherwise
    /// appends the entry.
    pub fn insert(&mut self, key: String, value: String)
        ensures
            (exists|i: int| 0 <= i < old(self).entries().len() && #[trigger] old(self).entries()[i].0 == key@) ==> exists|i: int|
                0 <= i < old(self).entries().len() && #[trigger] old(self).entries()[i].0 == key@
                    && final(self).entries() == old(self).entries().update(i, (key@, value@)),
            (forall|i: int| 0 <= i < old(self).entries().len() ==> #[trigger] old(self).entries()[i].0 != key@) ==> final(self).entries()
                == old(self).entries().push((key@, value@)),
    {
        proof {
            use_type_invariant(&*self);
        }
        let kv = chars_of(key.as_str());
        let mut i: usize = 0;
        while i < self.entries.len()
            invariant
                i <= self.entries.len(),
                kv@ == key@,
                self.entries@ == old(self).entries@,
                keys_unique(entry_views(self.entries@)),
                forall|j: int| 0 <= j < i ==> #[trigger] entry_views(self.entries@)[j].0 != key@,
            decreases self.entries.len() - i,
        {
            let ev = chars_of(self.entries[i].0.as_str());
            if chars_eq(ev.as_slice(), kv.as_slice()) {
                let ghost e0 = self.entries@;
                assert(entry_views(e0)[i as int].0 == key@);
                let mut entries: Vec<(String, String)> = Vec::new();
                std::mem::swap(&mut entries, &mut self.entries);
                entries.set(i, (key, value));
                assert(entry_views(entries@) =~= entry_views(e0).update(i as int, (key@, value@)));
                assert(keys_unique(entry_views(entries@))) by {
                    assert forall|a: int, b: int| 0 <= a < b < entries@.len() implies #[trigger] entry_views(entries@)[a].0 != #[trigger] entry_views(entries@)[b].0 by {
                        assert(entry_views(e0)[a].0 != entry_views(e0)[b].0);
                    }
                }
                self.entries = entries;
                assert(old(self).entries()[i as int].0 == key@);
                assert(self.entries() == old(self).entries().update(i as int, (key@, value@)));
                return;
            }
            i = i + 1;
        }
        let ghost e0 = self.entries@;
        let mut entries: Vec<(String, String)> = Vec::new();
                std::mem::swap(&mut entries, &mut self.entries);
        entries.push((key, value));
        assert(entry_views(entries@) =~= entry_views(e0).push((key@, value@)));
        assert(keys_unique(entry_views(entries@))) by {
            assert forall|a: int, b: int| 0 <= a < b < entries@.len() implies #[trigger] entry_views(entries@)[a].0 != #[trigger] entry_views(entries@)[b].0 by {
                if b < e0.len() {
                    assert(entry_views(e0)[a].0 != entry_views(e0)[b].0);
                }
            }
        }
        self.entries = entries;
    }

    /// The value of `key`, if present.
    pub fn get(&self, key: &str) -> (r: Option<String>)
        ensures
            match r {
                Some(v) => exists|i: int| 0 <= i < self.entries().len() && #[trigger] self.entries()[i] == (key@, v@),
                None => forall|i: int| 0 <= i < self.entries().len() ==> #[trigger] self.entries()[i].0 != key@,
            },
    {
        let kv = chars_of(key);
        let mut i: usize = 0;
        while i < self.entries.len()
            invariant
                i <= self.entries.len(),
                kv@ == key@,
                forall|j: int| 0 <= j < i ==> #[trigger] self.entries()[j].0 != key@,
            decreases self.entries.len() - i,
        {
            let ev = chars_of(self.entries[i].0.as_str());
            if chars_eq(ev.as_slice(), kv.as_slice()) {
                let v = copy_string(&self.entries[i].1);
                assert(self.entries()[i as int] == (key@, v@));
                return Some(v);
            }
            i = i + 1;
        }
        None
    }
}

/// The entries that demangling `names` in turn gives: each name that demangles, with its
/// demangled form, in the order of first appearance.
pub open spec fn batch_spec(names: Seq<Seq<char>>) -> Seq<(Seq<char>, Seq<char>)>
    decreases names.len(),
{
    if names.len() == 0 {
        seq![]
    } else {
        let p = batch_spec(names.drop_last());
        let n = names.last();
        match itanium_demangled(n) {
            Some(d) => if exists|i: int| 0 <= i < p.len() && #[trigger] p[i].0 == n {
                p
            } else {
                p.push((n, d))
            },
            None => p,
        }
    }
}

/// The names as character sequences.
pub open spec fn name_views(names: Seq<String>) -> Seq<Seq<char>> {
    names.map_values(|n: String| n@)
}

proof fn lemma_batch_values(names: Seq<Seq<char>>)
    ensures
        forall|i: int| 0 <= i < batch_spec(names).len() ==> itanium_demangled(#[trigger] batch_spec(names)[i].0) == Some(batch_spec(names)[i].1),
    decreases names.len(),
{
    if names.len() > 0 {
        lemma_batch_values(names.drop_last());
    }
}

impl CppDemangleBackend {
    /// Demangles each of `names` in turn; the map holds the names that demangle, with
    /// their demangled forms, in order of first appearance.
    pub fn demangle_batch(&self, names: &[String]) -> (r: Result<DemangleMap, AnnotateError>)
        ensures
            r matches Ok(m) && m.entries() == batch_spec(name_views(names@)),
    {
        let mut map = DemangleMap::new();
        let mut i: usize = 0;
        let ghost nv = name_views(names@);
        while i < names.len()
            invariant
                i <= names.len(),
                nv == name_views(names@),
                map.entries() == batch_spec(nv.take(i as int)),
            decreases names.len() - i,
        {
            proof {
                lemma_batch_values(nv.take(i as int));
            }
            assert(nv.take(i as int + 1).drop_last() == nv.take(i as int));
            assert(nv.take(i as int + 1).last() == names[i as int]@);
            match self.demangle(names[i].as_str()) {
                Ok(d) => {
                    let ghost m0 = map.entries();
                    let key = copy_string(&names[i]);
                    map.insert(key, d);
                    proof {
                        let k0 = names[i as int]@;
                        if exists|p: int| 0 <= p < m0.len() && #[trigger] m0[p].0 == k0 {
                            let p = choose|p: int| 0 <= p < m0.len() && #[trigger] m0[p].0 == k0 && map.entries() == m0.update(p, (k0, d@));
                            assert(itanium_demangled(m0[p].0) == Some(m0[p].1));
                            assert(map.entries() =~= m0);
                        }
                    }
                },
                Err(_) => {},
            }
            i = i + 1;
        }
        assert(nv.take(names.len() as int) == nv);
        Ok(map)
    }
}

/// One demangling step: every occurrence of `m` replaced by `d`, when `s` contains `m`.
pub open spec fn demangle_step(s: Seq<char>, m: Seq<char>, d: Seq<char>) -> Seq<char> {
    if contains_seq(s, m) {
        replace_spec(s, m, d)
    } else {
        s
    }
}

/// `s` after the demangling steps of `entries`, in order.
pub open spec fn demangle_text(s: Seq<char>, entries: Seq<(Seq<char>, Seq<char>)>) -> Seq<char>
    decreases entries.len(),
{
    if entries.len() == 0 {
        s
    } else {
        let e = entries.last();
        demangle_step(demangle_text(s, entries.drop_last()), e.0, e.1)
    }
}

/// Replaces mangled names in instruction mnemonics with their demangled forms.
///
/// For each instruction, each entry of the map is applied in turn: when the mnemonic
/// contains the mangled name, every occurrence is replaced.
pub fn apply_demangling(instructions: &mut [Instruction], demangled_map: &DemangleMap)
    ensures
        final(instructions)@.len() == old(instructions)@.len(),
        forall|i: int|
            0 <= i < final(instructions)@.len() ==> {
                &&& (#[trigger] final(instructions)@[i]).address == old(instructions)@[i].address
                &&& final(instructions)@[i].bytes == old(instructions)@[i].bytes
                &&& final(instructions)@[i].mnemonic@ == demangle_text(old(instructions)@[i].mnemonic@, demangled_map.entries())
            },
{
    let ghost entries = demangled_map.entries();
    let mut i: usize = 0;
    while i < instructions.len()
        invariant
            i <= instructions@.len(),
            instructions@.len() == old(instructions)@.len(),
            entries == demangled_map.entries(),
            forall|k: int| i <= k < instructions@.len() ==> #[trigger] instructions@[k] == old(instructions)@[k],
            forall|k: int|
                0 <= k < i ==> {
                    &&& (#[trigger] instructions@[k]).address == old(instructions)@[k].address
                    &&& instructions@[k].bytes == old(instructions)@[k].bytes
                    &&& instructions@[k].mnemonic@ == demangle_text(old(instructions)@[k].mnemonic@, entries)
                },
        decreases instructions@.len() - i,
    {
        let mut text = chars_of(instructions[i].mnemonic.as_str());
        let mut j: usize = 0;
        let ghost orig = instructions@[i as int].mnemonic@;
        assert(entries.take(0) =~= Seq::<(Seq<char>, Seq<char>)>::empty());
        while j < demangled_map.entries.len()
            invariant
                j <= demangled_map.entries@.len(),
                entries == demangled_map.entries(),
                text@ == demangle_text(orig, entries.take(j as int)),
            decreases demangled_map.entries@.len() - j,
        {
            let m = chars_of(demangled_map.entries[j].0.as_str());
            let d = chars_of(demangled_map.entries[j].1.as_str());
            assert(entries.take(j as int + 1).drop_last() == entries.take(j as int));
            assert(entries.take(j as int + 1).last() == entries[j as int]);
            if chars_contain(text.as_slice(), m.as_slice()) {
                text = replace_chars(text.as_slice(), m.as_slice(), d.as_slice());
            }
            j = j + 1;
        }
        assert(entries.take(demangled_map.entries@.len() as int) == entries);
        let updated = Instruction {
            address: instructions[i].address,
            bytes: copy_string(&instructions[i].bytes),
            mnemonic: string_of(text.as_slice()),
        };
        instructions[i] = updated;
        i = i + 1;
    }
}

/// A character of `[a-zA-Z0-9_]`.
pub open spec fn is_word_char(c: char) -> bool {
    ('a' <= c && c <= 'z') || ('A' <= c && c <= 'Z') || ('0' <= c && c <= '9') || c == '_'
}

fn word_char(c: char) -> (r: bool)
    ensures
        r == is_word_char(c),
{
    ('a' <= c && c <= 'z') || ('A' <= c && c <= 'Z') || ('0' <= c && c <= '9') || c == '_'
}

/// The end of the run of word characters of `s` that starts at `j`.
pub open spec fn word_end(s: Seq<char>, j: int) -> int
    decreases s.len() - j,
{
    if 0 <= j < s.len() && is_word_char(s[j]) {
        word_end(s, j + 1)
    } else {
        j
    }
}

proof fn lemma_word_end(s: Seq<char>, j: int)
    requires
        0 <= j <= s.len(),
    ensures
        j <= word_end(s, j) <= s.len(),
        forall|k: int| j <= k < word_end(s, j) ==> is_word_char(#[trigger] s[k]),
        word_end(s, j) < s.len() ==> !is_word_char(s[word_end(s, j)]),
    decreases s.len() - j,
{
    if j < s.len() && is_word_char(s[j]) {
        lemma_word_end(s, j + 1);
    }
}

/// The matches of `_Z[a-zA-Z0-9_]+` in `s` from position `i` on, leftmost first and
/// non-overlapping, each as long as possible.
pub open spec fn mangled_matches(s: Seq<char>, i: int) -> Seq<Seq<char>>
    decreases s.len() - i,
{
    if i < 0 || i + 3 > s.len() {
        seq![]
    } else if s[i] == '_' && s[i + 1] == 'Z' && is_word_char(s[i + 2]) {
        let e = word_end(s, i + 2);
        if e <= i || e > s.len() {
            seq![]
        } else {
            seq![s.subrange(i, e)] + mangled_matches(s, e)
        }
    } else {
        mangled_matches(s, i + 1)
    }
}

/// The separator before a branch-target comment.
pub open spec fn comment_sep() -> Seq<char> {
    seq![' ', ';', ' ', '<']
}

/// The name in a branch-target comment ` ; <name>` when it starts with `_Z`.
pub open spec fn comment_symbol(s: Seq<char>) -> Option<Seq<char>> {
    let sep = comment_sep();
    if exists|k: int| occurs_at(s, sep, k) {
        let k = choose|k: int| occurs_at(s, sep, k) && forall|j: int| 0 <= j < k ==> !#[trigger] occurs_at(s, sep, j);
        let rest = s.skip(k + 4);
        if rest.len() > 0 && rest.last() == '>' && is_prefix(seq!['_', 'Z'], rest.drop_last()) {
            Some(rest.drop_last())
        } else {
            None
        }
    } else {
        None
    }
}

/// `s` mentions the mangled name `x`: in its branch-target comment or as a match.
#[verifier::opaque]
pub open spec fn mentions_in(s: Seq<char>, x: Seq<char>) -> bool {
    comment_symbol(s) == Some(x) || mangled_matches(s, 0).contains(x)
}

/// One of the first `n` mnemonics mentions `x`.
pub open spec fn mentioned_before(insts: Seq<Instruction>, n: int, x: Seq<char>) -> bool {
    exists|i: int| 0 <= i < n && #[trigger] mentions_in(insts[i].mnemonic@, x)
}

/// `x` is a mangled name that one of the mnemonics mentions.
pub open spec fn mentions_mangled(insts: Seq<Instruction>, x: Seq<char>) -> bool {
    mentioned_before(insts, insts.len() as int, x)
}

/// The mangled names that the mnemonics mention, in ascending order, each once.
pub open spec fn mangled_symbols(insts: Seq<Instruction>) -> Seq<Seq<char>> {
    choose|ms: Seq<Seq<char>>| sorted_by(ms, chars_order()) && forall|x: Seq<char>| #[trigger] ms.contains(x) <==> mentions_mangled(insts, x)
}

/// The first position of ` ; <` in `v`, if any.
fn find_comment(v: &[char]) -> (r: Option<usize>)
    ensures
        match r {
            Some(k) => occurs_at(v@, comment_sep(), k as int) && forall|j: int| 0 <= j < k ==> !#[trigger] occurs_at(v@, comment_sep(), j),
            None => forall|j: int| !#[trigger] occurs_at(v@, comment_sep(), j),
        },
{
    let sep = [' ', ';', ' ', '<'];
    assert(sep@ =~= comment_sep());
    let mut k: usize = 0;
    while k < v.len()
        invariant
            k <= v.len(),
            sep@ == comment_sep(),
            forall|j: int| 0 <= j < k ==> !#[trigger] occurs_at(v@, sep@, j),
        decreases v.len() - k,
    {
        if chars_occur_at(v, &sep, k) {
            return Some(k);
        }
        k = k + 1;
    }
    assert forall|j: int| !#[trigger] occurs_at(v@, sep@, j) by {
        if j >= v.len() {
            assert(!(j + 4 <= v.len()));
        }
    }
    None
}

/// The branch-target comment symbol of `v` (see `comment_symbol`).
fn comment_symbol_exec(v: &[char]) -> (r: Option<Vec<char>>)
    ensures
        match r {
            Some(x) => comment_symbol(v@) == Some(x@),
            None => comment_symbol(v@) is None,
        },
{
    match find_comment(v) {
        None => None,
        Some(k) => {
            let ghost sep = comment_sep();
            proof {
                let c = choose|c: int| occurs_at(v@, sep, c) && forall|j: int| 0 <= j < c ==> !#[trigger] occurs_at(v@, sep, j);
                assert(c == k) by {
                    if c < k {
                    } else if c > k {
                        assert(!occurs_at(v@, sep, k as int));
                    }
                }
            }
            assert(comment_sep().len() == 4);
            assert(k + 4 <= v.len());
            let rest = vstd::slice::slice_subrange(v, k + 4, v.len());
            assert(rest@ == v@.skip(k + 4));
            if rest.len() > 0 && rest[rest.len() - 1] == '>' {
                let body = vstd::slice::slice_subrange(rest, 0, rest.len() - 1);
                assert(body@ == rest@.drop_last());
                if body.len() >= 2 && body[0] == '_' && body[1] == 'Z' {
                    assert(is_prefix(seq!['_', 'Z'], body@)) by {
                        assert(body@.take(2) =~= seq!['_', 'Z']);
                    }
                    return Some(vstd::slice::slice_to_vec(body));
                }
                assert(!is_prefix(seq!['_', 'Z'], body@)) by {
                    if is_prefix(seq!['_', 'Z'], body@) {
                        assert(body@.take(2)[0] == '_' && body@.take(2)[1] == 'Z');
                    }
                }
            }
            None
        },
    }
}

/// Adds every match of `_Z[a-zA-Z0-9_]+` in `v` to a sorted list.
fn insert_mangled_matches(found: &mut Vec<Vec<char>>, v: &[char])
    requires
        sorted_by(views(old(found)@), chars_order()),
    ensures
        sorted_by(views(final(found)@), chars_order()),
        forall|x: Seq<char>| #[trigger] views(final(found)@).contains(x) <==> (views(old(found)@).contains(x) || mangled_matches(v@, 0).contains(x)),
{
    let ghost s = v@;
    let ghost start = views(found@);
    let mut p: usize = 0;
    let ghost mut done: Seq<Seq<char>> = seq![];
    while p < v.len()
        invariant
            s == v@,
            p <= v.len(),
            done + mangled_matches(s, p as int) == mangled_matches(s, 0),
            sorted_by(views(found@), chars_order()),
            forall|x: Seq<char>| #[trigger] views(found@).contains(x) <==> (start.contains(x) || done.contains(x)),
        decreases v.len() - p,
    {
        if v.len() - p > 2 && v[p] == '_' && v[p + 1] == 'Z' && word_char(v[p + 2]) {
            let mut e = p + 2;
            while e < v.len() && word_char(v[e])
                invariant
                    s == v@,
                    p + 2 <= e <= v.len(),
                    word_end(s, p + 2) == word_end(s, e as int),
                decreases v.len() - e,
            {
                e = e + 1;
            }
            proof {
                lemma_word_end(s, p + 2);
            }
            let m = vstd::slice::slice_subrange(v, p, e);
            let ghost f0 = views(found@);
            insert_chars_sorted(found, m);
            proof {
                assert(mangled_matches(s, p as int) == seq![s.subrange(p as int, e as int)] + mangled_matches(s, e as int));
                assert(done.push(m@) + mangled_matches(s, e as int) =~= done + mangled_matches(s, p as int));
                let d1 = done.push(m@);
                assert forall|x: Seq<char>| #[trigger] views(found@).contains(x) <==> (start.contains(x) || d1.contains(x)) by {
                    if d1.contains(x) && x != m@ {
                        let q = choose|q: int| 0 <= q < d1.len() && d1[q] == x;
                        assert(done[q] == x);
                    }
                    if done.contains(x) {
                        let q = choose|q: int| 0 <= q < done.len() && done[q] == x;
                        assert(d1[q] == x);
                    }
                    if x == m@ {
                        assert(d1[done.len() as int] == x);
                    }
                }
                done = d1;
            }
            p = e;
        } else {
            proof {
                if p + 3 <= v.len() {
                    assert(mangled_matches(s, p as int) == mangled_matches(s, p as int + 1));
                } else {
                    assert(mangled_matches(s, p as int) == Seq::<Seq<char>>::empty());
                    assert(mangled_matches(s, p as int + 1) == Seq::<Seq<char>>::empty());
                }
            }
            p = p + 1;
        }
    }
    assert(mangled_matches(s, p as int) == Seq::<Seq<char>>::empty());
    assert(done =~= mangled_matches(s, 0));
}

/// Adds the mangled names that `v` mentions to a sorted list.
fn add_mentions(found: &mut Vec<Vec<char>>, v: &[char])
    requires
        sorted_by(views(old(found)@), chars_order()),
    ensures
        sorted_by(views(final(found)@), chars_order()),
        forall|x: Seq<char>| #[trigger] views(final(found)@).contains(x) <==> (views(old(found)@).contains(x) || mentions_in(v@, x)),
{
    match comment_symbol_exec(v) {
        Some(x) => {
            insert_chars_sorted(found, x.as_slice());
        },
        None => {},
    }
    insert_mangled_matches(found, v);
    proof {
        reveal(mentions_in);
    }
}

/// Collects the mangled C++ names that instruction mnemonics mention: names in branch
/// target comments (` ; <_Z...>`) and every match of `_Z[a-zA-Z0-9_]+`, sorted, each once.
pub fn extract_mangled_symbols(instructions: &[Instruction]) -> (r: Vec<String>)
    ensures
        string_views(r@) == mangled_symbols(instructions@),
{
    let ghost insts = instructions@;
    let mut found: Vec<Vec<char>> = Vec::new();
    let mut i: usize = 0;
    while i < instructions.len()
        invariant
            insts == instructions@,
            i <= insts.len(),
            sorted_by(views(found@), chars_order()),
            forall|x: Seq<char>| #[trigger] views(found@).contains(x) <==> mentioned_before(insts, i as int, x),
        decreases insts.len() - i,
    {
        let v = chars_of(instructions[i].mnemonic.as_str());
        let ghost s = v@;
        let ghost prior = views(found@);
        add_mentions(&mut found, v.as_slice());
        assert forall|x: Seq<char>| #[trigger] views(found@).contains(x) <==> mentioned_before(insts, i + 1, x) by {
            assert(insts[i as int].mnemonic@ == s);
            if mentioned_before(insts, i + 1, x) {
                let j = choose|j: int| 0 <= j < i + 1 && #[trigger] mentions_in(insts[j].mnemonic@, x);
                if j < i {
                    assert(mentioned_before(insts, i as int, x));
                }
            }
            if mentions_in(s, x) {
                assert(mentions_in(insts[i as int].mnemonic@, x));
            }
        }
        i = i + 1;
    }
    proof {
        let fs = views(found@);
        assert forall|x: Seq<char>| #[trigger] fs.contains(x) <==> mentions_mangled(insts, x) by {}
        lemma_chars_order_strict_total();
        lemma_sorted_unique(fs, mangled_symbols(insts), chars_order());
    }
    let mut out: Vec<String> = Vec::new();
    let mut k: usize = 0;
    while k < found.len()
        invariant
            k <= found.len(),
            string_views(out@) == views(found@).take(k as int),
        decreases found.len() - k,
    {
        let ghost o0 = out@;
        let st = string_of(found[k].as_slice());
        out.push(st);
        assert(out@ == o0.push(st));
        assert(string_views(out@) =~= string_views(o0).push(st@));
        assert(views(found@).take(k as int + 1) =~= views(found@).take(k as int).push(found[k as int]@));
        assert(string_views(out@) =~= views(found@).take(k as int + 1));
        k = k + 1;
    }
    assert(views(found@).take(found.len() as int) == views(found@));
    out
}

} // verus!
