//! Which schema each open document is validated against, and, the other way
//! round, which documents each schema serves: two sides of one index that an
//! editor keeps as documents are opened, changed and closed.
//!
//! A document is tracked under the path of its (first) schema, or under none.
//! The two sides agree: a document is listed under a schema exactly when it
//! is tracked under that schema's path.

use vstd::hash_map::StringHashMap;
use vstd::prelude::*;

use crate::text::{opt_str, str_eq, string_of};
use crate::workspace::opt_text;

verus! {

/// The texts of a list of strings.
pub open spec fn texts(v: Seq<String>) -> Seq<Seq<char>> {
    v.map_values(|s: String| s@)
}

/// The documents of a list, as a set of texts.
pub open spec fn texts_set(v: Seq<String>) -> Set<Seq<char>> {
    texts(v).to_set()
}

/// Whether the two sides of the index agree: every document tracked under a
/// schema is listed under it, and every document listed under a schema is
/// tracked under it.
pub open spec fn index_consistent(
    docs: Map<Seq<char>, Option<Seq<char>>>,
    users: Map<Seq<char>, Set<Seq<char>>>,
) -> bool {
    &&& forall|u: Seq<char>|
        #![trigger docs[u]]
        docs.contains_key(u) && docs[u] is Some ==> users.contains_key(docs[u]->0) && users[docs[u]->0].contains(u)
    &&& forall|p: Seq<char>, u: Seq<char>|
        #![trigger users[p].contains(u)]
        users.contains_key(p) && users[p].contains(u) ==> docs.contains_key(u) && docs[u] == Some(p)
}

/// The schema a document is tracked under, if it is tracked under one.
pub open spec fn tracked_schema(docs: Map<Seq<char>, Option<Seq<char>>>, u: Seq<char>) -> Option<Seq<char>> {
    if docs.contains_key(u) {
        docs[u]
    } else {
        None
    }
}

/// The reverse side with `u` no longer listed under `p` (where `p` has a list).
pub open spec fn unlisted(users: Map<Seq<char>, Set<Seq<char>>>, p: Seq<char>, u: Seq<char>) -> Map<
    Seq<char>,
    Set<Seq<char>>,
> {
    if users.contains_key(p) {
        users.insert(p, users[p].remove(u))
    } else {
        users
    }
}

/// The reverse side with `u` listed under `p` (a list started where `p` has none).
pub open spec fn listed(users: Map<Seq<char>, Set<Seq<char>>>, p: Seq<char>, u: Seq<char>) -> Map<
    Seq<char>,
    Set<Seq<char>>,
> {
    users.insert(
        p,
        if users.contains_key(p) {
            users[p].insert(u)
        } else {
            set![u]
        },
    )
}

/// The reverse side once `u` is tracked under `schema`: taken off the list of
/// the schema it was tracked under, then put on the new one's.
pub open spec fn users_after_track(
    docs: Map<Seq<char>, Option<Seq<char>>>,
    users: Map<Seq<char>, Set<Seq<char>>>,
    u: Seq<char>,
    schema: Option<Seq<char>>,
) -> Map<Seq<char>, Set<Seq<char>>> {
    let cleared = match tracked_schema(docs, u) {
        Some(p) => unlisted(users, p, u),
        None => users,
    };
    match schema {
        Some(p) => listed(cleared, p, u),
        None => cleared,
    }
}

/// The reverse side once `u` is no longer tracked.
pub open spec fn users_after_untrack(
    docs: Map<Seq<char>, Option<Seq<char>>>,
    users: Map<Seq<char>, Set<Seq<char>>>,
    u: Seq<char>,
) -> Map<Seq<char>, Set<Seq<char>>> {
    match tracked_schema(docs, u) {
        Some(p) => unlisted(users, p, u),
        None => users,
    }
}

/// Tracking a document under a schema (or none) keeps the two sides of the
/// index in agreement, and lists the document under that schema and no other.
pub proof fn law_track_keeps_index(
    docs: Map<Seq<char>, Option<Seq<char>>>,
    users: Map<Seq<char>, Set<Seq<char>>>,
    u: Seq<char>,
    schema: Option<Seq<char>>,
)
    requires
        index_consistent(docs, users),
    ensures
        index_consistent(docs.insert(u, schema), users_after_track(docs, users, u, schema)),
        forall|p: Seq<char>|
            #![trigger users_after_track(docs, users, u, schema)[p]]
            users_after_track(docs, users, u, schema).contains_key(p) ==> (users_after_track(
                docs,
                users,
                u,
                schema,
            )[p].contains(u) <==> schema == Some(p)),
{
    let docs2 = docs.insert(u, schema);
    let cleared = match tracked_schema(docs, u) {
        Some(p) => unlisted(users, p, u),
        None => users,
    };
    assert forall|p: Seq<char>, v: Seq<char>|
        #![trigger cleared[p].contains(v)]
        cleared.contains_key(p) && cleared[p].contains(v) ==> users.contains_key(p) && users[p].contains(v) && v != u by {
        if cleared.contains_key(p) && cleared[p].contains(v) {
            assert(users.contains_key(p) && users[p].contains(v));
            if v == u {
                assert(docs.contains_key(u) && docs[u] == Some(p));
            }
        }
    }
    let after = users_after_track(docs, users, u, schema);
    assert forall|v: Seq<char>|
        #![trigger docs2[v]]
        docs2.contains_key(v) && docs2[v] is Some implies after.contains_key(docs2[v]->0) && after[docs2[v]->0].contains(v) by {
        if v != u {
            let q = docs[v]->0;
            assert(users.contains_key(q) && users[q].contains(v));
            assert(cleared.contains_key(q) && cleared[q].contains(v));
        }
    }
    assert forall|p: Seq<char>, v: Seq<char>|
        #![trigger after[p].contains(v)]
        after.contains_key(p) && after[p].contains(v) implies docs2.contains_key(v) && docs2[v] == Some(p) by {
        if v != u {
            if schema == Some(p) && !cleared.contains_key(p) {
            } else {
                assert(cleared.contains_key(p) && cleared[p].contains(v));
            }
        }
    }
    assert forall|p: Seq<char>|
        #![trigger after[p]]
        after.contains_key(p) implies (after[p].contains(u) <==> schema == Some(p)) by {
        if schema != Some(p) {
            assert(cleared.contains_key(p));
            if cleared[p].contains(u) {
                assert(false);
            }
        }
    }
}

/// Ceasing to track a document keeps the two sides of the index in
/// agreement, and leaves the document listed under no schema.
pub proof fn law_untrack_keeps_index(
    docs: Map<Seq<char>, Option<Seq<char>>>,
    users: Map<Seq<char>, Set<Seq<char>>>,
    u: Seq<char>,
)
    requires
        index_consistent(docs, users),
    ensures
        index_consistent(docs.remove(u), users_after_untrack(docs, users, u)),
        forall|p: Seq<char>|
            #![trigger users_after_untrack(docs, users, u)[p]]
            users_after_untrack(docs, users, u).contains_key(p) ==> !users_after_untrack(
                docs,
                users,
                u,
            )[p].contains(u),
{
    let docs2 = docs.remove(u);
    let after = users_after_untrack(docs, users, u);
    assert forall|p: Seq<char>, v: Seq<char>|
        #![trigger after[p].contains(v)]
        after.contains_key(p) && after[p].contains(v) implies users.contains_key(p) && users[p].contains(v) && v != u by {
        assert(users.contains_key(p) && users[p].contains(v));
        if v == u {
            assert(docs.contains_key(u) && docs[u] == Some(p));
        }
    }
    assert forall|v: Seq<char>|
        #![trigger docs2[v]]
        docs2.contains_key(v) && docs2[v] is Some implies after.contains_key(docs2[v]->0) && after[docs2[v]->0].contains(v) by {
        let q = docs[v]->0;
        assert(users.contains_key(q) && users[q].contains(v));
    }
    assert forall|p: Seq<char>|
        #![trigger after[p]]
        after.contains_key(p) implies !after[p].contains(u) by {
        if after[p].contains(u) {
            assert(users.contains_key(p) && users[p].contains(u));
        }
    }
}

/// Which schema each open document is validated against, and which documents
/// each schema serves.
pub struct SchemaIndex {
    schema_of: StringHashMap<Option<String>>,
    users: StringHashMap<Vec<String>>,
}

pub open spec fn users_view(m: Map<Seq<char>, Vec<String>>) -> Map<Seq<char>, Set<Seq<char>>> {
    m.map_values(|v: Vec<String>| texts_set(v@))
}

impl SchemaIndex {
    /// The tracked documents and the schema each is tracked under.
    pub closed spec fn documents(&self) -> Map<Seq<char>, Option<Seq<char>>> {
        self.schema_of@.map_values(|o: Option<String>| opt_text(o))
    }

    /// The documents listed under each schema.
    pub closed spec fn users(&self) -> Map<Seq<char>, Set<Seq<char>>> {
        users_view(self.users@)
    }

    /// The two sides of the index agree.
    pub open spec fn wf(&self) -> bool {
        index_consistent(self.documents(), self.users())
    }

    /// An index that tracks nothing.
    pub fn new() -> (r: SchemaIndex)
        ensures
            r.wf(),
            r.documents() == Map::<Seq<char>, Option<Seq<char>>>::empty(),
            r.users() == Map::<Seq<char>, Set<Seq<char>>>::empty(),
    {
        let r = SchemaIndex { schema_of: StringHashMap::new(), users: StringHashMap::new() };
        assert(r.documents() =~= Map::<Seq<char>, Option<Seq<char>>>::empty());
        assert(r.users() =~= Map::<Seq<char>, Set<Seq<char>>>::empty());
        r
    }

    /// The schema the document `uri` is tracked under, if it is tracked under one.
    pub fn schema_of_document(&self, uri: &str) -> (r: Option<String>)
        ensures
            opt_text(r) == tracked_schema(self.documents(), uri@),
    {
        match self.schema_of.get(uri) {
            Some(o) => match o {
                Some(p) => Some(string_of(p.as_str())),
                None => None,
            },
            None => None,
        }
    }

    /// The documents listed under the schema at `path`.
    pub fn documents_using(&self, path: &str) -> (r: Vec<String>)
        ensures
            texts_set(r@) == (if self.users().contains_key(path@) {
                self.users()[path@]
            } else {
                Set::empty()
            }),
    {
        match self.users.get(path) {
            Some(v) => {
                let r = copy_texts(v);
                assert(texts_set(r@) =~= texts_set(v@));
                r
            },
            None => {
                let r: Vec<String> = Vec::new();
                assert(texts_set(r@) =~= Set::<Seq<char>>::empty());
                r
            },
        }
    }

    /// Tracks the document `uri` under the schema at `schema` (or under none),
    /// in place of the schema it was tracked under before.
    pub fn track(&mut self, uri: &str, schema: Option<&str>)
        requires
            old(self).wf(),
        ensures
            final(self).wf(),
            final(self).documents() == old(self).documents().insert(uri@, opt_str(schema)),
            final(self).users() == users_after_track(old(self).documents(), old(self).users(), uri@, opt_str(schema)),
    {
        let ghost docs = self.documents();
        let ghost users = self.users();
        let previous = self.schema_of_document(uri);
        match &previous {
            Some(p) => unlist(&mut self.users, p.as_str(), uri),
            None => {},
        }
        match schema {
            Some(p) => list(&mut self.users, p, uri),
            None => {},
        }
        let entry = match schema {
            Some(p) => Some(string_of(p)),
            None => None,
        };
        assert(opt_text(entry) == opt_str(schema));
        self.schema_of.insert(string_of(uri), entry);
        assert(self.documents() =~= docs.insert(uri@, opt_str(schema)));
        proof {
            law_track_keeps_index(docs, users, uri@, opt_str(schema));
        }
    }

    /// Stops tracking the document `uri`.
    pub fn untrack(&mut self, uri: &str)
        requires
            old(self).wf(),
        ensures
            final(self).wf(),
            final(self).documents() == old(self).documents().remove(uri@),
            final(self).users() == users_after_untrack(old(self).documents(), old(self).users(), uri@),
    {
        let ghost docs = self.documents();
        let ghost users = self.users();
        let previous = self.schema_of_document(uri);
        match &previous {
            Some(p) => unlist(&mut self.users, p.as_str(), uri),
            None => {},
        }
        self.schema_of.remove(uri);
        assert(self.documents() =~= docs.remove(uri@));
        proof {
            law_untrack_keeps_index(docs, users, uri@);
        }
    }
}

/// A copy of the texts of a list.
fn copy_texts(v: &Vec<String>) -> (r: Vec<String>)
    ensures
        texts(r@) == texts(v@),
{
    let mut out: Vec<String> = Vec::new();
    let mut i: usize = 0;
    while i < v.len()
        invariant
            i <= v@.len(),
            texts(out@) == texts(v@).take(i as int),
        decreases v.len() - i,
    {
        let ghost before = texts(out@);
        out.push(string_of(v[i].as_str()));
        assert(texts(out@) =~= before.push(v@[i as int]@));
        assert(texts(v@).take(i + 1) =~= texts(v@).take(
            i as int,
        ).push(v@[i as int]@));
        i += 1;
    }
    assert(texts(v@).take(i as int) =~= texts(v@));
    out
}

/// Takes `uri` off the list of `path`, where `path` has one.
fn unlist(users: &mut StringHashMap<Vec<String>>, path: &str, uri: &str)
    ensures
        users_view(final(users)@) == unlisted(users_view(old(users)@), path@, uri@),
{
    let ghost before = users_view(users@);
    let kept = match users.get(path) {
        None => {
            assert(users_view(users@) =~= unlisted(before, path@, uri@));
            return ;
        },
        Some(v) => {
            let ghost vv = texts(v@);
            let mut kept: Vec<String> = Vec::new();
            let mut i: usize = 0;
            while i < v.len()
                invariant
                    i <= v@.len(),
                    vv == texts(v@),
                    texts(kept@).to_set() == vv.take(i as int).to_set().remove(uri@),
                decreases v.len() - i,
            {
                let ghost kv = texts(kept@);
                let ghost item = v@[i as int]@;
                let ghost t0 = vv.take(i as int);
                assert(vv.take(i + 1) =~= t0.push(item));
                proof {
                    t0.lemma_push_to_set_commute(item);
                    kv.lemma_push_to_set_commute(item);
                }
                if !str_eq(v[i].as_str(), uri) {
                    kept.push(string_of(v[i].as_str()));
                    assert(texts(kept@) =~= kv.push(item));
                    assert(texts(kept@).to_set() =~= t0.push(item).to_set().remove(uri@));
                } else {
                    assert(texts(kept@).to_set() =~= t0.push(item).to_set().remove(uri@));
                }
                i += 1;
            }
            assert(vv.take(i as int) =~= vv);
            assert(texts_set(kept@) =~= texts_set(v@).remove(uri@));
            kept
        },
    };
    users.insert(string_of(path), kept);
    assert(users_view(users@) =~= unlisted(before, path@, uri@));
}

/// Puts `uri` on the list of `path`, starting one where `path` has none.
fn list(users: &mut StringHashMap<Vec<String>>, path: &str, uri: &str)
    ensures
        users_view(final(users)@) == listed(users_view(old(users)@), path@, uri@),
{
    let ghost before = users_view(users@);
    let mut next = match users.get(path) {
        None => Vec::new(),
        Some(v) => copy_texts(v),
    };
    let ghost nv = texts(next@);
    assert(before.contains_key(path@) ==> nv.to_set() =~= before[path@]);
    assert(!before.contains_key(path@) ==> nv =~= Seq::<Seq<char>>::empty());
    next.push(string_of(uri));
    assert(texts(next@) =~= nv.push(uri@));
    proof {
        nv.lemma_push_to_set_commute(uri@);
    }
    assert(texts_set(next@) =~= if before.contains_key(path@) {
        before[path@].insert(uri@)
    } else {
        set![uri@]
    });
    users.insert(string_of(path), next);
    assert(users_view(users@) =~= listed(before, path@, uri@));
}

} // verus!
