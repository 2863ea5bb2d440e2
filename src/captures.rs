use vstd::prelude::*;

use crate::util::{join, joined, str_views};

verus! {

/// The tokens recorded for `group` in a log, in the order they were consumed.
pub open spec fn group_tokens(log: Seq<(Seq<char>, Seq<char>)>, group: Seq<char>) -> Seq<Seq<char>>
    decreases log.len(),
{
    if log.len() == 0 {
        Seq::empty()
    } else if log.last().0 == group {
        group_tokens(log.drop_last(), group).push(log.last().1)
    } else {
        group_tokens(log.drop_last(), group)
    }
}

/// The names of the groups that received at least one token.
pub open spec fn group_names(log: Seq<(Seq<char>, Seq<char>)>) -> Set<Seq<char>> {
    Set::new(|g: Seq<char>| exists|i: int| 0 <= i < log.len() && #[trigger] log[i].0 == g)
}

/// The views of a vector of strings.
pub open spec fn string_views(v: Seq<String>) -> Seq<Seq<char>> {
    v.map_values(|s: String| s@)
}

/// The tokens recorded for one group, in order: an `rpds::Vector`, which
/// Verus cannot declare, so it is held here.
#[verifier::external_body]
pub struct GroupTokens {
    items: rpds::Vector<String>,
}

/// The groups of a match, each with its tokens: an `rpds::HashTrieMap`, which
/// Verus cannot declare, so it is held here.
#[verifier::external_body]
pub struct GroupMap {
    entries: rpds::HashTrieMap<String, GroupTokens>,
}

/// The texts a persistent vector holds, in order.
pub uninterp spec fn vector_items(v: GroupTokens) -> Seq<Seq<char>>;

/// The entries of a persistent map: each group name with its vector.
pub uninterp spec fn map_entries(m: GroupMap) -> Map<Seq<char>, GroupTokens>;

/// Relies on `rpds::Vector::new`: an empty vector.
#[verifier::external_body]
fn vector_empty() -> (r: GroupTokens)
    ensures
        vector_items(r) == Seq::<Seq<char>>::empty(),
{
    GroupTokens { items: rpds::Vector::new() }
}

/// Relies on `rpds::Vector::push_back`: a new vector with the token at the
/// end; the old one is left as it was.
#[verifier::external_body]
fn vector_push(v: &GroupTokens, token: &str) -> (r: GroupTokens)
    ensures
        vector_items(r) == vector_items(*v).push(token@),
{
    GroupTokens { items: v.items.push_back(token.to_string()) }
}

/// Relies on `rpds::Vector::iter`: the items in order.
#[verifier::external_body]
fn vector_strings(v: &GroupTokens) -> (r: Vec<String>)
    ensures
        string_views(r@) == vector_items(*v),
{
    let mut out = Vec::new();
    for t in v.items.iter() {
        out.push(t.clone());
    }
    out
}

/// Relies on `rpds::HashTrieMap::new`: an empty map.
#[verifier::external_body]
fn map_empty() -> (r: GroupMap)
    ensures
        map_entries(r).dom() == Set::<Seq<char>>::empty(),
{
    GroupMap { entries: rpds::HashTrieMap::new() }
}

/// Relies on `rpds::HashTrieMap::get`: the vector of a group, if any.
#[verifier::external_body]
fn map_get<'a>(m: &'a GroupMap, group: &str) -> (r: Option<&'a GroupTokens>)
    ensures
        match r {
            Some(v) => map_entries(*m).contains_key(group@) && *v == map_entries(*m)[group@],
            None => !map_entries(*m).contains_key(group@),
        },
{
    m.entries.get(group)
}

/// Relies on `rpds::HashTrieMap::insert`: a new map in which the group has
/// this vector; the old one is left as it was.
#[verifier::external_body]
fn map_insert(m: &GroupMap, group: &str, v: GroupTokens) -> (r: GroupMap)
    ensures
        map_entries(r) == map_entries(*m).insert(group@, v),
{
    GroupMap { entries: m.entries.insert(group.to_string(), v) }
}

/// Relies on `rpds::HashTrieMap::keys`: each key once, in an order that
/// depends on the hasher.
#[verifier::external_body]
fn map_keys(m: &GroupMap) -> (r: Vec<String>)
    ensures
        string_views(r@).no_duplicates(),
        string_views(r@).to_set() == map_entries(*m).dom(),
{
    let mut out = Vec::new();
    for k in m.entries.keys() {
        out.push(k.clone());
    }
    out
}

/// Relies on `rpds::HashTrieMap::clone`: another handle on the same entries.
#[verifier::external_body]
fn map_share(m: &GroupMap) -> (r: GroupMap)
    ensures
        map_entries(r) == map_entries(*m),
{
    GroupMap { entries: m.entries.clone() }
}

/// Whether the map holds, for each group that the log records, exactly the
/// group's tokens, and nothing else.
pub open spec fn holds_log(m: Map<Seq<char>, GroupTokens>, log: Seq<(Seq<char>, Seq<char>)>) -> bool {
    &&& forall|g: Seq<char>| #[trigger] m.contains_key(g) <==> group_names(log).contains(g)
    &&& forall|g: Seq<char>| #[trigger] m.contains_key(g) ==> vector_items(m[g]) == group_tokens(log, g)
}

/// The captured tokens of one match: a persistent map from group name to
/// the group's tokens, which new values extend while sharing what came
/// before. Its view is the log of (group, token) pairs in the order the
/// tokens were consumed.
pub struct Captures {
    inner: GroupMap,
    log: Ghost<Seq<(Seq<char>, Seq<char>)>>,
}

impl View for Captures {
    type V = Seq<(Seq<char>, Seq<char>)>;

    closed spec fn view(&self) -> Seq<(Seq<char>, Seq<char>)> {
        self.log@
    }
}

proof fn lemma_names_nonempty(log: Seq<(Seq<char>, Seq<char>)>, g: Seq<char>)
    ensures
        group_names(log).contains(g) <==> group_tokens(log, g).len() > 0,
    decreases log.len(),
{
    if log.len() > 0 {
        lemma_names_nonempty(log.drop_last(), g);
        if group_names(log.drop_last()).contains(g) {
            let k = choose|k: int| 0 <= k < log.drop_last().len() && #[trigger] log.drop_last()[k].0 == g;
            assert(log[k].0 == g);
        }
        if group_names(log).contains(g) && log.last().0 != g {
            let k = choose|k: int| 0 <= k < log.len() && #[trigger] log[k].0 == g;
            assert(log.drop_last()[k].0 == g);
        }
        if log.last().0 == g {
            assert(log[log.len() - 1].0 == g);
        }
    }
}

impl Captures {
    #[verifier::type_invariant]
    spec fn inv(self) -> bool {
        holds_log(map_entries(self.inner), self.log@)
    }

    pub fn new() -> (r: Captures)
        ensures
            r@ == Seq::<(Seq<char>, Seq<char>)>::empty(),
    {
        let inner = map_empty();
        let ghost log = Seq::<(Seq<char>, Seq<char>)>::empty();
        proof {
            assert forall|g: Seq<char>| #[trigger] map_entries(inner).contains_key(g) <==> group_names(log).contains(g) by {}
        }
        Captures { inner, log: Ghost(log) }
    }

    /// The names of the groups that received at least one token, each once,
    /// in no meaningful order.
    pub fn groups(&self) -> (r: Vec<String>)
        ensures
            string_views(r@).no_duplicates(),
            string_views(r@).to_set() == group_names(self@),
    {
        proof {
            use_type_invariant(self);
        }
        let r = map_keys(&self.inner);
        assert(string_views(r@).to_set() =~= group_names(self@));
        r
    }

    /// The tokens of `group` in the order they were consumed; empty when the
    /// group never matched.
    pub fn tokens(&self, group: &str) -> (r: Vec<String>)
        ensures
            string_views(r@) == group_tokens(self@, group@),
    {
        proof {
            use_type_invariant(self);
            lemma_names_nonempty(self@, group@);
        }
        match map_get(&self.inner, group) {
            Some(v) => vector_strings(v),
            None => {
                let out: Vec<String> = Vec::new();
                assert(string_views(out@) =~= group_tokens(self@, group@));
                out
            },
        }
    }

    /// The first token of `group`, or `None` when the group never matched.
    pub fn first(&self, group: &str) -> (r: Option<String>)
        ensures
            group_tokens(self@, group@).len() == 0 ==> r is None,
            group_tokens(self@, group@).len() > 0 ==> (r matches Some(t) && t@ == group_tokens(self@, group@)[0]),
    {
        let toks = self.tokens(group);
        if toks.len() == 0 {
            None
        } else {
            assert(string_views(toks@)[0] == toks@[0]@);
            Some(toks[0].clone())
        }
    }

    /// The tokens of `group` joined by single spaces.
    pub fn concat(&self, group: &str) -> (r: String)
        ensures
            r@ == joined(group_tokens(self@, group@), seq![' ']),
    {
        let toks = self.tokens(group);
        let mut parts: Vec<&str> = Vec::new();
        let mut i: usize = 0;
        while i < toks.len()
            invariant
                0 <= i <= toks@.len(),
                parts@.len() == i,
                str_views(parts@) == string_views(toks@).subrange(0, i as int),
            decreases toks@.len() - i,
        {
            let piece = toks[i].as_str();
            assert(piece@ == string_views(toks@)[i as int]);
            let ghost before = parts@;
            parts.push(piece);
            assert(parts@ == before.push(piece));
            assert(str_views(parts@).len() == i + 1);
            assert(str_views(parts@)[i as int] == piece@);
            assert forall|k: int| 0 <= k < i implies str_views(parts@)[k] == str_views(before)[k] by {
                assert(parts@[k] == before[k]);
            }
            assert(str_views(parts@) =~= string_views(toks@).subrange(0, i as int + 1));
            i = i + 1;
        }
        assert(string_views(toks@).subrange(0, i as int) =~= string_views(toks@));
        let space = " ";
        proof {
            reveal_strlit(" ");
            assert(space@ =~= seq![' ']);
        }
        let sl = parts.as_slice();
        assert(sl@ == parts@);
        join(sl, space)
    }

    /// Another handle on the same captures.
    pub fn duplicate(&self) -> (r: Captures)
        ensures
            r@ == self@,
    {
        proof {
            use_type_invariant(self);
        }
        Captures { inner: map_share(&self.inner), log: Ghost(self.log@) }
    }

    /// The captures extended by `token` recorded under `group`; `self` is
    /// left as it was.
    pub fn add_to_group(&self, group: &str, token: &str) -> (r: Captures)
        ensures
            r@ == self@.push((group@, token@)),
    {
        proof {
            use_type_invariant(self);
            lemma_names_nonempty(self@, group@);
        }
        let list = match map_get(&self.inner, group) {
            Some(v) => vector_push(v, token),
            None => {
                let e = vector_empty();
                vector_push(&e, token)
            },
        };
        let inner = map_insert(&self.inner, group, list);
        let ghost old_log = self.log@;
        let ghost log = old_log.push((group@, token@));
        proof {
            let m = map_entries(inner);
            assert(log.drop_last() =~= old_log);
            assert(log.last() == (group@, token@));
            assert(group_tokens(log, group@) == group_tokens(old_log, group@).push(token@));
            assert forall|g: Seq<char>| #[trigger] m.contains_key(g) <==> group_names(log).contains(g) by {
                lemma_names_nonempty(log, g);
                lemma_names_nonempty(old_log, g);
            }
            assert forall|g: Seq<char>| #[trigger] m.contains_key(g) implies vector_items(m[g]) == group_tokens(log, g) by {
                if g != group@ {
                    assert(group_tokens(log, g) == group_tokens(old_log, g));
                }
            }
        }
        Captures { inner, log: Ghost(log) }
    }
}

} // verus!
