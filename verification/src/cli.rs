//! Command-line parameter handling: the parsed parameter record, the
//! option-to-arguments map, parsing of a raw argument list, and validation
//! against the program's parameter policy.

use vstd::prelude::*;

use crate::errors::CliError;
use crate::strutil::clone_string_vec;
use crate::strutil::str_eq;

verus! {

/// One option and the argument values seen for it: `None` while the option
/// has appeared without any value.
#[derive(Debug, Clone)]
pub struct OptEntry {
    pub key: String,
    pub args: Option<Vec<String>>,
}

/// The options and arguments of an invocation, keyed by option text. Keys are
/// unique; insertion order is immaterial, and contracts speak of the map view.
#[derive(Debug, Clone)]
pub struct CliOptsArgs {
    pub entries: Vec<OptEntry>,
}

impl CliOptsArgs {
    /// Keys are pairwise distinct.
    pub open spec fn wf(self) -> bool {
        forall|i: int, j: int|
            0 <= i < j < self.entries@.len() ==> self.entries@[i].key@ != self.entries@[j].key@
    }

    /// Whether some entry carries key `k`.
    pub open spec fn contains_key(self, k: Seq<char>) -> bool {
        exists|i: int| 0 <= i < self.entries@.len() && self.entries@[i].key@ == k
    }

    /// The position of the entry carrying key `k`, when one exists.
    pub open spec fn index_of(self, k: Seq<char>) -> int {
        choose|i: int| 0 <= i < self.entries@.len() && self.entries@[i].key@ == k
    }

    /// The argument values stored under key `k`, when the key exists.
    pub open spec fn spec_get(self, k: Seq<char>) -> Option<Seq<Seq<char>>> {
        self.entries@[self.index_of(k)].args.deep_view()
    }

    /// The mathematical content of the collection: a finite map from option
    /// text to its optional argument list.
    pub open spec fn as_map(self) -> Map<Seq<char>, Option<Seq<Seq<char>>>> {
        Map::new(|k: Seq<char>| self.contains_key(k), |k: Seq<char>| self.spec_get(k))
    }

    /// The stored values under `k`, with a missing key and a key stored
    /// without values both reading as `None`.
    pub open spec fn spec_flat(self, k: Seq<char>) -> Option<Seq<Seq<char>>> {
        if self.contains_key(k) {
            self.spec_get(k)
        } else {
            None
        }
    }

    /// The map with no options.
    pub fn empty() -> (r: CliOptsArgs)
        ensures
            r.wf(),
            r.as_map() == Map::<Seq<char>, Option<Seq<Seq<char>>>>::empty(),
            r.entries@.len() == 0,
    {
        let r = CliOptsArgs { entries: Vec::new() };
        proof {
            assert(r.as_map() =~~= Map::<Seq<char>, Option<Seq<Seq<char>>>>::empty());
        }
        r
    }

    /// Find the position of `key`'s entry.
    fn find_index(&self, key: &str) -> (r: Option<usize>)
        ensures
            match r {
                Some(i) => i < self.entries@.len() && self.entries@[i as int].key@ == key@,
                None => !self.contains_key(key@),
            },
    {
        let n = self.entries.len();
        let mut i: usize = 0;
        while i < n
            invariant
                i <= n,
                n == self.entries@.len(),
                forall|j: int| 0 <= j < i ==> self.entries@[j].key@ != key@,
            decreases n - i,
        {
            if str_eq(self.entries[i].key.as_str(), key) {
                return Some(i);
            }
            i = i + 1;
        }
        None
    }

    /// Whether the invocation carries option `key`.
    pub fn contains_key_exec(&self, key: &str) -> (r: bool)
        ensures
            r == self.contains_key(key@),
    {
        match self.find_index(key) {
            Some(i) => {
                proof {
                    assert(self.contains_key(key@));
                }
                true
            },
            None => false,
        }
    }

    /// Whether `key` is stored with argument values: a missing key and a key
    /// without values both answer no.
    pub fn has_args(&self, key: &str) -> (r: bool)
        requires
            self.wf(),
        ensures
            r == (self.spec_flat(key@) is Some),
    {
        match self.find_index(key) {
            None => false,
            Some(i) => {
                proof {
                    assert(self.contains_key(key@));
                    assert(self.index_of(key@) == i) by {
                        let w = self.index_of(key@);
                        assert(0 <= w < self.entries@.len() && self.entries@[w].key@ == key@);
                    }
                }
                self.entries[i].args.is_some()
            },
        }
    }

    /// Clone the values stored under `key`: a missing key and a key without
    /// values both give `None`.
    pub fn get_flat(&self, key: &str) -> (r: Option<Vec<String>>)
        requires
            self.wf(),
        ensures
            r.deep_view() == self.spec_flat(key@),
    {
        match self.find_index(key) {
            None => None,
            Some(i) => {
                proof {
                    assert(self.contains_key(key@));
                    assert(self.index_of(key@) == i) by {
                        let w = self.index_of(key@);
                        assert(0 <= w < self.entries@.len() && self.entries@[w].key@ == key@);
                    }
                }
                match &self.entries[i].args {
                    None => None,
                    Some(vs) => Some(clone_string_vec(vs)),
                }
            },
        }
    }
}

/// The values that end up stored under `key` after one more value `v`
/// arrives: appended to the values already there, or a fresh singleton when
/// the key is absent or valueless.
pub open spec fn spec_appended_args(
    m: Map<Seq<char>, Option<Seq<Seq<char>>>>,
    key: Seq<char>,
    v: Seq<char>,
) -> Seq<Seq<char>> {
    if m.dom().contains(key) {
        match m[key] {
            Some(vs) => vs.push(v),
            None => seq![v],
        }
    } else {
        seq![v]
    }
}

/// Recording one option occurrence in the map: with a value, the value is
/// appended under the key; without one, the key is added only if absent.
pub open spec fn spec_insert_opt_arg(
    m: Map<Seq<char>, Option<Seq<Seq<char>>>>,
    key: Seq<char>,
    val: Option<Seq<char>>,
) -> Map<Seq<char>, Option<Seq<Seq<char>>>> {
    match val {
        Some(v) => m.insert(key, Some(spec_appended_args(m, key, v))),
        None => if m.dom().contains(key) {
            m
        } else {
            m.insert(key, None)
        },
    }
}

impl CliOptsArgs {
    /// Store `args` under `key`, replacing whatever the key held.
    pub fn set_key(&mut self, key: String, args: Option<Vec<String>>)
        requires
            old(self).wf(),
        ensures
            final(self).wf(),
            final(self).as_map() == old(self).as_map().insert(key@, args.deep_view()),
    {
        match self.find_index(key.as_str()) {
            Some(i) => {
                let mut e = self.entries.remove(i);
                e.args = args;
                self.entries.insert(i, e);
                proof {
                    assert(self.entries@[i as int].key@ == key@);
                    assert forall|j: int|
                        0 <= j < old(self).entries@.len() && j != i as int implies self.entries@[j]
                        == old(self).entries@[j] by {}
                    lemma_as_map_update(*old(self), *self, i as int, key@);
                }
            },
            None => {
                let e = OptEntry { key, args };
                let ghost eg = e;
                self.entries.push(e);
                proof {
                    lemma_as_map_push(*old(self), *self, eg);
                }
            },
        }
    }

    /// Record one occurrence of option `key`, with `val` as its argument if
    /// one was given: the executable counterpart of [`spec_insert_opt_arg`].
    pub fn insert_opt_arg_entry(&mut self, key: String, val: Option<String>)
        requires
            old(self).wf(),
        ensures
            final(self).wf(),
            final(self).as_map() == spec_insert_opt_arg(old(self).as_map(), key@, val.deep_view()),
    {
        let ghost m = old(self).as_map();
        match self.find_index(key.as_str()) {
            Some(i) => {
                proof {
                    assert(self.contains_key(key@));
                    assert(self.index_of(key@) == i) by {
                        let w = self.index_of(key@);
                        assert(0 <= w < self.entries@.len() && self.entries@[w].key@ == key@);
                    }
                    assert(m.dom().contains(key@));
                    assert(m[key@] == old(self).entries@[i as int].args.deep_view());
                }
                match val {
                    Some(v) => {
                        let ghost vg = v@;
                        let mut e = self.entries.remove(i);
                        let new_args = match e.args.take() {
                            Some(mut vs) => {
                                let ghost vsg = vs.deep_view();
                                vs.push(v);
                                proof {
                                    assert(vs.deep_view() =~~= vsg.push(vg));
                                }
                                vs
                            },
                            None => {
                                let mut vs: Vec<String> = Vec::new();
                                vs.push(v);
                                proof {
                                    assert(vs.deep_view() =~~= seq![vg]);
                                }
                                vs
                            },
                        };
                        e.args = Some(new_args);
                        self.entries.insert(i, e);
                        proof {
                            assert(self.entries@[i as int].key@ == key@);
                            assert forall|j: int|
                                0 <= j < old(self).entries@.len() && j != i as int implies
                                self.entries@[j] == old(self).entries@[j] by {}
                            lemma_as_map_update(*old(self), *self, i as int, key@);
                            assert(self.entries@[i as int].args.deep_view() == Some(
                                spec_appended_args(m, key@, vg),
                            ));
                        }
                    },
                    None => {
                        proof {
                            assert(self.as_map() == spec_insert_opt_arg(m, key@, None::<Seq<char>>));
                        }
                    },
                }
            },
            None => {
                let args = match val {
                    Some(v) => {
                        let mut vs: Vec<String> = Vec::new();
                        vs.push(v);
                        Some(vs)
                    },
                    None => None,
                };
                let e = OptEntry { key, args };
                let ghost eg = e;
                self.entries.push(e);
                proof {
                    lemma_as_map_push(*old(self), *self, eg);
                    if val is Some {
                        assert(eg.args.deep_view() =~~= Some(
                            spec_appended_args(m, eg.key@, val.deep_view().unwrap()),
                        ));
                    }
                }
            },
        }
    }
}

/// Replacing the entry at `i` while keeping its key rewrites exactly that
/// key's value in the map view.
proof fn lemma_as_map_update(pre: CliOptsArgs, post: CliOptsArgs, i: int, k: Seq<char>)
    requires
        pre.wf(),
        0 <= i < pre.entries@.len(),
        pre.entries@[i].key@ == k,
        post.entries@.len() == pre.entries@.len(),
        forall|j: int| 0 <= j < pre.entries@.len() && j != i ==> post.entries@[j] == pre.entries@[j],
        post.entries@[i].key@ == k,
    ensures
        post.wf(),
        post.as_map() == pre.as_map().insert(k, post.entries@[i].args.deep_view()),
{
    assert forall|a: int, b: int|
        0 <= a < b < post.entries@.len() implies post.entries@[a].key@
        != post.entries@[b].key@ by {
        assert(post.entries@[a].key@ == pre.entries@[a].key@);
        assert(post.entries@[b].key@ == pre.entries@[b].key@);
    }
    let target = pre.as_map().insert(k, post.entries@[i].args.deep_view());
    assert forall|k2: Seq<char>| post.contains_key(k2) == pre.contains_key(k2) by {
        if post.contains_key(k2) {
            let w = choose|w: int|
                0 <= w < post.entries@.len() && post.entries@[w].key@ == k2;
            assert(pre.entries@[w].key@ == k2);
        }
        if pre.contains_key(k2) {
            let w = choose|w: int| 0 <= w < pre.entries@.len() && pre.entries@[w].key@ == k2;
            assert(post.entries@[w].key@ == k2);
        }
    }
    assert(pre.contains_key(k));
    assert(post.as_map().dom() =~= target.dom());
    assert forall|k2: Seq<char>| post.as_map().dom().contains(k2) implies post.as_map()[k2]
        == target[k2] by {
        let w = post.index_of(k2);
        assert(0 <= w < post.entries@.len() && post.entries@[w].key@ == k2);
        if k2 == k {
            assert(w == i);
        } else {
            assert(w != i);
            assert(pre.entries@[w].key@ == k2);
            let wp = pre.index_of(k2);
            assert(0 <= wp < pre.entries@.len() && pre.entries@[wp].key@ == k2);
            assert(wp == w);
            assert(post.as_map()[k2] == pre.as_map()[k2]);
        }
    }
    assert(post.as_map() =~= target);
}

/// Appending an entry with a fresh key adds exactly that key to the map view.
proof fn lemma_as_map_push(pre: CliOptsArgs, post: CliOptsArgs, e: OptEntry)
    requires
        pre.wf(),
        !pre.contains_key(e.key@),
        post.entries@ == pre.entries@.push(e),
    ensures
        post.wf(),
        post.as_map() == pre.as_map().insert(e.key@, e.args.deep_view()),
{
    let n = pre.entries@.len() as int;
    assert forall|a: int, b: int|
        0 <= a < b < post.entries@.len() implies post.entries@[a].key@
        != post.entries@[b].key@ by {
        if b < n {
            assert(post.entries@[a] == pre.entries@[a]);
            assert(post.entries@[b] == pre.entries@[b]);
        } else {
            assert(post.entries@[b] == e);
            assert(post.entries@[a] == pre.entries@[a]);
        }
    }
    let target = pre.as_map().insert(e.key@, e.args.deep_view());
    assert forall|k2: Seq<char>|
        post.contains_key(k2) == (pre.contains_key(k2) || k2 == e.key@) by {
        if post.contains_key(k2) {
            let w = choose|w: int|
                0 <= w < post.entries@.len() && post.entries@[w].key@ == k2;
            if w < n {
                assert(pre.entries@[w].key@ == k2);
            }
        }
        if pre.contains_key(k2) {
            let w = choose|w: int| 0 <= w < pre.entries@.len() && pre.entries@[w].key@ == k2;
            assert(post.entries@[w].key@ == k2);
        }
        if k2 == e.key@ {
            assert(post.entries@[n].key@ == k2);
        }
    }
    assert(post.as_map().dom() =~= target.dom());
    assert forall|k2: Seq<char>| post.as_map().dom().contains(k2) implies post.as_map()[k2]
        == target[k2] by {
        let w = post.index_of(k2);
        assert(0 <= w < post.entries@.len() && post.entries@[w].key@ == k2);
        if k2 == e.key@ {
            assert(w == n);
        } else {
            assert(w < n);
            assert(pre.entries@[w].key@ == k2);
            let wp = pre.index_of(k2);
            assert(0 <= wp < pre.entries@.len() && pre.entries@[wp].key@ == k2);
            assert(wp == w);
        }
    }
    assert(post.as_map() =~= target);
}

/// Pairs of spellings of one option, short form first, long form second.
pub type CliSameOpts<'a> = Vec<(&'a str, &'a str)>;

/// The map view of an optional option map; absent means no options at all.
pub open spec fn opt_view(o: Option<CliOptsArgs>) -> Option<
    Map<Seq<char>, Option<Seq<Seq<char>>>>,
> {
    match o {
        Some(m) => Some(m.as_map()),
        None => None,
    }
}

/// Key uniqueness of an optional option map.
pub open spec fn opt_wf(o: Option<CliOptsArgs>) -> bool {
    match o {
        Some(m) => m.wf(),
        None => true,
    }
}

/// A map, or the empty map where there is none.
pub open spec fn unwrap_map(o: Option<Map<Seq<char>, Option<Seq<Seq<char>>>>>) -> Map<
    Seq<char>,
    Option<Seq<Seq<char>>>,
> {
    match o {
        Some(m) => m,
        None => Map::empty(),
    }
}

/// What one merged option holds: the long spelling's values first, then the
/// short spelling's, with a key that was stored valueless reading as absent.
pub open spec fn merged_value(
    m: Map<Seq<char>, Option<Seq<Seq<char>>>>,
    s: Seq<char>,
    l: Seq<char>,
) -> Option<Seq<Seq<char>>> {
    let lv = if m.dom().contains(l) {
        m[l]
    } else {
        None
    };
    let sv = if m.dom().contains(s) {
        m[s]
    } else {
        None
    };
    match lv {
        None => sv,
        Some(v1) => match sv {
            None => Some(v1),
            Some(v2) => Some(v1 + v2),
        },
    }
}

/// The merge of same-option spellings: for each pair either of whose
/// spellings occurs, the long spelling maps to the merged values; nothing
/// else is kept.
pub open spec fn spec_merge(
    m: Map<Seq<char>, Option<Seq<Seq<char>>>>,
    pairs: Seq<(Seq<char>, Seq<char>)>,
) -> Map<Seq<char>, Option<Seq<Seq<char>>>>
    decreases pairs.len(),
{
    if pairs.len() == 0 {
        Map::empty()
    } else {
        let rest = spec_merge(m, pairs.drop_last());
        let s = pairs.last().0;
        let l = pairs.last().1;
        if m.dom().contains(s) || m.dom().contains(l) {
            rest.insert(l, merged_value(m, s, l))
        } else {
            rest
        }
    }
}

/// Operations the command-line layer needs on an optional option map.
pub trait CliOptsExd: Sized {
    /// The well-formedness the operations preserve.
    spec fn opts_inv(&self) -> bool;

    /// Record one option occurrence, creating the map on first use.
    fn insert_opt_arg(&mut self, key: String, val: Option<String>)
        requires
            old(self).opts_inv(),
        ensures
            final(self).opts_inv(),
    ;

    /// Merge short and long spellings of the same options; `None` stays `None`.
    fn cli_paras_merge(&self, same_opts: &CliSameOpts<'_>) -> Option<CliOptsArgs>
        requires
            self.opts_inv(),
    ;

    /// Wrap an already-built option map.
    fn new(x: Option<CliOptsArgs>) -> Self;
}

impl CliOptsExd for Option<CliOptsArgs> {
    open spec fn opts_inv(&self) -> bool {
        opt_wf(*self)
    }

    fn insert_opt_arg(&mut self, key: String, val: Option<String>)
        ensures
            (*final(self)) is Some,
            opt_view(*final(self)) == Some(
                spec_insert_opt_arg(unwrap_map(opt_view(*old(self))), key@, val.deep_view()),
            ),
    {
        let mut m = match self.take() {
            Some(m) => m,
            None => CliOptsArgs::empty(),
        };
        m.insert_opt_arg_entry(key, val);
        *self = Some(m);
    }

    fn cli_paras_merge(&self, same_opts: &CliSameOpts<'_>) -> (r: Option<CliOptsArgs>)
        ensures
            r is Some <==> (*self) is Some,
            (r matches Some(m2) ==> {
                &&& m2.wf()
                &&& (*self) matches Some(m)
                &&& m2.as_map() == spec_merge(m.as_map(), same_opts.deep_view())
            }),
    {
        let m = match self {
            None => {
                return None;
            },
            Some(m) => m,
        };
        let ghost mv = m.as_map();
        let ghost pairs = same_opts.deep_view();
        let mut out = CliOptsArgs::empty();
        let n = same_opts.len();
        let mut idx: usize = 0;
        proof {
            assert(pairs.take(0) =~= Seq::<(Seq<char>, Seq<char>)>::empty());
        }
        while idx < n
            invariant
                idx <= n,
                n == pairs.len(),
                pairs == same_opts.deep_view(),
                m.wf(),
                mv == m.as_map(),
                out.wf(),
                out.as_map() == spec_merge(mv, pairs.take(idx as int)),
            decreases n - idx,
        {
            let (short, long) = same_opts[idx];
            proof {
                assert(pairs[idx as int] == (short@, long@));
                assert(pairs.take(idx as int + 1).drop_last() =~= pairs.take(idx as int));
                assert(pairs.take(idx as int + 1).last() == pairs[idx as int]);
            }
            let has_short = m.contains_key_exec(short);
            let has_long = m.contains_key_exec(long);
            if has_short || has_long {
                let long_values = m.get_flat(long);
                let short_values = m.get_flat(short);
                let merged: Option<Vec<String>> = match long_values {
                    None => short_values,
                    Some(vs1) => match short_values {
                        None => Some(vs1),
                        Some(vs2) => {
                            let mut vs1 = vs1;
                            let mut vs2 = vs2;
                            let ghost d1 = vs1.deep_view();
                            let ghost d2 = vs2.deep_view();
                            vs1.append(&mut vs2);
                            proof {
                                assert(vs1.deep_view() =~~= d1 + d2);
                            }
                            Some(vs1)
                        },
                    },
                };
                proof {
                    assert(merged.deep_view() == merged_value(mv, short@, long@));
                }
                out.set_key(long.to_owned(), merged);
            }
            idx = idx + 1;
        }
        proof {
            assert(pairs.take(n as int) =~= pairs);
        }
        Some(out)
    }

    fn new(x: Option<CliOptsArgs>) -> (r: Self)
        ensures
            r == x,
    {
        x
    }
}

/// The parameters of one invocation: the program name, an optional pattern,
/// and the options with their arguments.
#[derive(Debug, Clone)]
pub struct CliParas {
    pub name: Option<String>,
    pub pattern: Option<String>,
    pub opts_args: Option<CliOptsArgs>,
}

/// What an invocation may carry: the acceptable patterns and options.
#[derive(Debug)]
pub struct CliValidParameters {
    pub patterns: Option<Vec<String>>,
    pub opts_args: Option<CliOptsArgs>,
}

impl CliParas {
    /// Assemble a parameter record from its parts.
    pub fn new(name: Option<String>, pattern: Option<String>, opts_args: Option<CliOptsArgs>) -> (r:
        CliParas)
        ensures
            r.name == name,
            r.pattern == pattern,
            r.opts_args == opts_args,
    {
        CliParas { name, pattern, opts_args }
    }

    /// Whether a program name was seen.
    pub fn contains_name(&self) -> (r: bool)
        ensures
            r == (self.name is Some),
    {
        self.name.is_some()
    }

    /// Whether a pattern was seen.
    pub fn contains_pattern(&self) -> (r: bool)
        ensures
            r == (self.pattern is Some),
    {
        self.pattern.is_some()
    }

    /// Whether option `key` occurred.
    pub fn contains_opt(&self, key: &str) -> (r: bool)
        ensures
            r == match self.opts_args {
                Some(m) => m.contains_key(key@),
                None => false,
            },
    {
        match &self.opts_args {
            Some(m) => m.contains_key_exec(key),
            None => false,
        }
    }

    /// Whether option `key` occurred with at least one argument value; an
    /// option stored without values does not count.
    pub fn contains_arg(&self, key: &str) -> (r: bool)
        requires
            opt_wf(self.opts_args),
        ensures
            r == match self.opts_args {
                Some(m) => m.spec_flat(key@) is Some,
                None => false,
            },
    {
        if !self.contains_opt(key) {
            return false;
        }
        match &self.opts_args {
            Some(m) => m.has_args(key),
            None => false,
        }
    }

    /// The arguments stored under option `key`: `None` when the option is
    /// absent or carried no values.
    pub fn get_args(&self, key: &str) -> (r: Option<Vec<String>>)
        requires
            opt_wf(self.opts_args),
        ensures
            r.deep_view() == match self.opts_args {
                Some(m) => m.spec_flat(key@),
                None => None,
            },
    {
        match &self.opts_args {
            Some(m) => m.get_flat(key),
            None => None,
        }
    }

    /// Merge same-option spellings in the stored options, keeping name and
    /// pattern.
    pub fn merge_opts_args(self, same_opts: &CliSameOpts<'_>) -> (r: CliParas)
        requires
            opt_wf(self.opts_args),
        ensures
            r.name == self.name,
            r.pattern == self.pattern,
            opt_wf(r.opts_args),
            r.opts_args is Some <==> self.opts_args is Some,
            (r.opts_args matches Some(m2) ==> {
                &&& self.opts_args matches Some(m)
                &&& m2.as_map() == spec_merge(m.as_map(), same_opts.deep_view())
            }),
    {
        let opts_args = self.opts_args.cli_paras_merge(same_opts);
        CliParas { name: self.name, pattern: self.pattern, opts_args }
    }
}

/// Whether an argument is spelled as an option.
pub open spec fn starts_dash(s: Seq<char>) -> bool {
    s.len() > 0 && s[0] == '-'
}

/// Executable twin of [`starts_dash`].
fn starts_with_dash(s: &String) -> (r: bool)
    ensures
        r == starts_dash(s@),
{
    let st = s.as_str();
    if st.unicode_len() == 0 {
        return false;
    }
    st.get_char(0) == '-'
}

/// The parser's running state: the options seen so far, and the option that
/// a following bare argument would belong to.
pub struct ParseState {
    pub opts: Option<Map<Seq<char>, Option<Seq<Seq<char>>>>>,
    pub last_opt: Option<Seq<char>>,
}

/// One argument of the tail: a dash argument opens (or revisits) an option;
/// a bare argument joins the last option seen, or is dropped if there is
/// none.
pub open spec fn parse_step(st: ParseState, arg: Seq<char>) -> ParseState {
    if starts_dash(arg) {
        ParseState {
            opts: Some(spec_insert_opt_arg(unwrap_map(st.opts), arg, None)),
            last_opt: Some(arg),
        }
    } else {
        match st.last_opt {
            Some(k) => ParseState {
                opts: Some(spec_insert_opt_arg(unwrap_map(st.opts), k, Some(arg))),
                last_opt: st.last_opt,
            },
            None => st,
        }
    }
}

/// [`parse_step`] folded over a sequence of arguments, left to right.
pub open spec fn parse_tail(st: ParseState, args: Seq<Seq<char>>) -> ParseState
    decreases args.len(),
{
    if args.len() == 0 {
        st
    } else {
        parse_step(parse_tail(st, args.drop_last()), args.last())
    }
}

/// The meaning of a raw argument list: the first argument is the name; a
/// bare second argument is the pattern, a dash one the first option; the
/// rest fold by [`parse_step`].
pub open spec fn spec_parse(args: Seq<Seq<char>>) -> (
    Option<Seq<char>>,
    Option<Seq<char>>,
    Option<Map<Seq<char>, Option<Seq<Seq<char>>>>>,
) {
    if args.len() == 0 {
        (None, None, None)
    } else if args.len() == 1 {
        (Some(args[0]), None, None)
    } else if !starts_dash(args[1]) {
        let st = parse_tail(ParseState { opts: None, last_opt: None }, args.skip(2));
        (Some(args[0]), Some(args[1]), st.opts)
    } else {
        let st0 = ParseState {
            opts: Some(spec_insert_opt_arg(Map::empty(), args[1], None)),
            last_opt: Some(args[1]),
        };
        let st = parse_tail(st0, args.skip(2));
        (Some(args[0]), None, st.opts)
    }
}

/// Parse a raw argument list into a parameter record: the executable
/// counterpart of [`spec_parse`].
pub fn cli_paras_parse(cli_paras: &[String]) -> (r: CliParas)
    ensures
        r.name.deep_view() == spec_parse(cli_paras.deep_view()).0,
        r.pattern.deep_view() == spec_parse(cli_paras.deep_view()).1,
        opt_view(r.opts_args) == spec_parse(cli_paras.deep_view()).2,
        opt_wf(r.opts_args),
{
    let ghost av = cli_paras.deep_view();
    let n = cli_paras.len();
    if n == 0 {
        return CliParas::new(None, None, None);
    }
    let name = Some(cli_paras[0].clone());
    let mut pattern: Option<String> = None;
    let mut opts: Option<CliOptsArgs> = None;
    let mut last_opt: Option<String> = None;
    if n > 1 {
        if !starts_with_dash(&cli_paras[1]) {
            pattern = Some(cli_paras[1].clone());
        } else {
            opts.insert_opt_arg(cli_paras[1].clone(), None);
            last_opt = Some(cli_paras[1].clone());
        }
    }
    let ghost st0 = ParseState { opts: opt_view(opts), last_opt: last_opt.deep_view() };
    proof {
        assert(av.skip(2).take(0) =~= Seq::<Seq<char>>::empty());
    }
    let mut i: usize = 2;
    while i < n
        invariant
            2 <= i,
            i <= n || i == 2,
            n == av.len(),
            av == cli_paras.deep_view(),
            opt_wf(opts),
            (ParseState { opts: opt_view(opts), last_opt: last_opt.deep_view() }) == parse_tail(
                st0,
                av.skip(2).take(i as int - 2),
            ),
        decreases n - i,
    {
        let ghost sub = av.skip(2);
        proof {
            assert(sub.take(i as int - 2 + 1).drop_last() =~= sub.take(i as int - 2));
            assert(sub.take(i as int - 2 + 1).last() == av[i as int]);
        }
        let arg = &cli_paras[i];
        if starts_with_dash(arg) {
            opts.insert_opt_arg(arg.clone(), None);
            last_opt = Some(arg.clone());
        } else {
            match &last_opt {
                Some(k) => {
                    let kk = k.clone();
                    opts.insert_opt_arg(kk, Some(arg.clone()));
                },
                None => {},
            }
        }
        i = i + 1;
    }
    proof {
        if n >= 2 {
            assert(av.skip(2).take(n as int - 2) =~= av.skip(2));
        }
    }
    CliParas::new(name, pattern, opts)
}

/// Hold a parameter record against the program's parameter policy: whether a
/// pattern is required and whether options and arguments are accepted.
/// Returns exactly which rule an invocation breaks, the pattern rules first.
pub fn cli_paras_check_valid(
    cli_paras: &CliParas,
    _valid_paras: &CliValidParameters,
    must_pattern: bool,
    allow_opts_args: bool,
) -> (r: Result<(), CliError>)
    ensures
        r == Err::<(), CliError>(CliError::MissingPattern) <==> (must_pattern
            && cli_paras.pattern is None),
        r == Err::<(), CliError>(CliError::UnexpectedPattern) <==> (!must_pattern
            && cli_paras.pattern is Some),
        r == Err::<(), CliError>(CliError::UnexpectedOptsArgs) <==> (must_pattern
            == (cli_paras.pattern is Some) && !allow_opts_args && cli_paras.opts_args is Some),
        r is Ok <==> (must_pattern == (cli_paras.pattern is Some) && (allow_opts_args
            || cli_paras.opts_args is None)),
{
    if must_pattern && cli_paras.pattern.is_none() {
        return Err(CliError::MissingPattern);
    }
    if !must_pattern && cli_paras.pattern.is_some() {
        return Err(CliError::UnexpectedPattern);
    }
    if !allow_opts_args && cli_paras.opts_args.is_some() {
        return Err(CliError::UnexpectedOptsArgs);
    }
    Ok(())
}

} // verus!
