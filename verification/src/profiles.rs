use vstd::prelude::*;

use crate::config::{Config, ConfigView};
use crate::text::str_eq;

verus! {

/// The map that a list of named entries describes (a later entry wins).
pub open spec fn assoc_map<V>(s: Seq<(Seq<char>, V)>) -> Map<Seq<char>, V>
    decreases s.len(),
{
    if s.len() == 0 {
        Map::empty()
    } else {
        assoc_map(s.drop_last()).insert(s.last().0, s.last().1)
    }
}

pub open spec fn distinct_names<V>(s: Seq<(Seq<char>, V)>) -> bool {
    forall|i: int, j: int| 0 <= i < j < s.len() ==> #[trigger] s[i].0 != #[trigger] s[j].0
}

pub proof fn lemma_assoc_map_dom<V>(s: Seq<(Seq<char>, V)>)
    ensures
        forall|k: Seq<char>|
            #![trigger assoc_map(s).dom().contains(k)]
            assoc_map(s).dom().contains(k) <==> exists|i: int| 0 <= i < s.len() && s[i].0 == k,
    decreases s.len(),
{
    if s.len() > 0 {
        lemma_assoc_map_dom(s.drop_last());
        assert forall|k: Seq<char>| assoc_map(s).dom().contains(k) implies exists|i: int|
            0 <= i < s.len() && s[i].0 == k by {
            if k != s.last().0 {
                assert(assoc_map(s.drop_last()).dom().contains(k));
                let i = choose|i: int| 0 <= i < s.drop_last().len() && s.drop_last()[i].0 == k;
                assert(s[i].0 == k);
            } else {
                assert(s[s.len() - 1].0 == k);
            }
        }
        assert forall|k: Seq<char>| (exists|i: int| 0 <= i < s.len() && s[i].0 == k) implies assoc_map(
            s,
        ).dom().contains(k) by {
            let i = choose|i: int| 0 <= i < s.len() && s[i].0 == k;
            if i < s.len() - 1 {
                assert(s.drop_last()[i].0 == k);
                assert(assoc_map(s.drop_last()).dom().contains(k));
            }
        }
    }
}

pub proof fn lemma_assoc_map_at<V>(s: Seq<(Seq<char>, V)>, i: int)
    requires
        distinct_names(s),
        0 <= i < s.len(),
    ensures
        assoc_map(s).dom().contains(s[i].0),
        assoc_map(s)[s[i].0] == s[i].1,
    decreases s.len(),
{
    if i < s.len() - 1 {
        let t = s.drop_last();
        assert(distinct_names(t)) by {
            assert forall|a: int, b: int| 0 <= a < b < t.len() implies t[a].0 != t[b].0 by {
                assert(t[a] == s[a] && t[b] == s[b]);
            }
        }
        assert(t[i] == s[i]);
        lemma_assoc_map_at(t, i);
        assert(s[i].0 != s[s.len() - 1].0);
    }
}

/// Values under distinct names.
pub struct NamedMap<V: View> {
    entries: Vec<(String, V)>,
}

/// Named profiles.
pub type Profiles = NamedMap<Config>;

pub open spec fn profile_views<V: View>(v: Seq<(String, V)>) -> Seq<(Seq<char>, V::V)> {
    v.map_values(|e: (String, V)| (e.0@, e.1@))
}

impl<V: View> NamedMap<V> {
    /// The entries in the order in which they were added.
    pub closed spec fn list(&self) -> Seq<(Seq<char>, V::V)> {
        profile_views(self.entries@)
    }

    #[verifier::type_invariant]
    closed spec fn names_distinct(&self) -> bool {
        distinct_names(profile_views(self.entries@))
    }
}

impl<V: View> View for NamedMap<V> {
    type V = Map<Seq<char>, V::V>;

    closed spec fn view(&self) -> Map<Seq<char>, V::V> {
        assoc_map(profile_views(self.entries@))
    }
}

impl<V: View> NamedMap<V> {
    pub fn new() -> (r: NamedMap<V>)
        ensures
            r@ == Map::<Seq<char>, V::V>::empty(),
    {
        NamedMap { entries: Vec::new() }
    }

    pub fn len(&self) -> (r: usize)
        ensures
            r == self.list().len(),
    {
        self.entries.len()
    }

    /// The name and settings of the `i`-th profile.
    pub fn entry(&self, i: usize) -> (r: (&String, &V))
        requires
            i < self.list().len(),
        ensures
            (r.0@, r.1@) == self.list()[i as int],
            self@.dom().contains(r.0@),
            self@[r.0@] == r.1@,
    {
        proof {
            use_type_invariant(self);
            lemma_assoc_map_at(profile_views(self.entries@), i as int);
        }
        let e = &self.entries[i];
        (&e.0, &e.1)
    }

    fn position(&self, name: &str) -> (r: Option<usize>)
        ensures
            match r {
                Some(i) => i < self.list().len() && self.list()[i as int].0 == name@,
                None => !self@.dom().contains(name@),
            },
    {
        proof {
            lemma_assoc_map_dom(profile_views(self.entries@));
        }
        let n = self.entries.len();
        let ghost s = profile_views(self.entries@);
        for i in 0..n
            invariant
                n == self.entries@.len(),
                s == profile_views(self.entries@),
                forall|j: int| 0 <= j < i ==> s[j].0 != name@,
        {
            assert(s[i as int].0 == self.entries@[i as int].0@);
            if str_eq(self.entries[i].0.as_str(), name) {
                return Some(i);
            }
        }
        None
    }

    /// The settings of the profile called `name`, if there is one.
    pub fn get(&self, name: &str) -> (r: Option<&V>)
        ensures
            match r {
                Some(c) => self@.dom().contains(name@) && self@[name@] == c@,
                None => !self@.dom().contains(name@),
            },
    {
        match self.position(name) {
            Some(i) => {
                let (_, c) = self.entry(i);
                Some(c)
            },
            None => None,
        }
    }

    pub fn contains(&self, name: &str) -> (r: bool)
        ensures
            r == self@.dom().contains(name@),
    {
        self.get(name).is_some()
    }

    /// Adds a profile, or replaces the settings of the profile of that name.
    pub fn insert(&mut self, name: String, config: V)
        ensures
            final(self)@ == old(self)@.insert(name@, config@),
    {
        proof {
            use_type_invariant(&*self);
            lemma_assoc_map_dom(profile_views(self.entries@));
        }
        let ghost s = profile_views(self.entries@);
        let ghost nv = name@;
        let ghost cv = config@;
        let pos = self.position(name.as_str());
        match pos {
            Some(i) => {
                proof {
                    let t = s.update(i as int, (nv, cv));
                    assert forall|a: int, b: int| 0 <= a < b < t.len() implies t[a].0 != t[b].0 by {
                        if a != i && b != i {
                            assert(t[a] == s[a] && t[b] == s[b]);
                        } else if a == i {
                            assert(t[b] == s[b]);
                            assert(s[i as int].0 == nv);
                        } else {
                            assert(t[a] == s[a]);
                            assert(s[i as int].0 == nv);
                        }
                    }
                    lemma_assoc_map_dom(t);
                    assert forall|x: Seq<char>| #[trigger]
                        assoc_map(t).dom().contains(x) == assoc_map(s).insert(nv, cv).dom().contains(
                            x,
                        ) by {
                        if assoc_map(s).dom().contains(x) {
                            let p = choose|p: int| 0 <= p < s.len() && s[p].0 == x;
                            if p != i {
                                assert(t[p] == s[p]);
                            }
                        }
                        if assoc_map(t).dom().contains(x) {
                            let p = choose|p: int| 0 <= p < t.len() && t[p].0 == x;
                            if p != i {
                                assert(t[p] == s[p]);
                            }
                        }
                        if x == nv {
                            assert(t[i as int].0 == nv);
                        }
                    }
                    assert forall|x: Seq<char>| #[trigger]
                        assoc_map(t).dom().contains(x) implies assoc_map(t)[x] == assoc_map(s).insert(
                            nv,
                            cv,
                        )[x] by {
                        let p = choose|p: int| 0 <= p < t.len() && t[p].0 == x;
                        lemma_assoc_map_at(t, p);
                        if p != i {
                            assert(t[p] == s[p]);
                            lemma_assoc_map_at(s, p);
                        }
                    }
                    assert(assoc_map(t) =~= assoc_map(s).insert(nv, cv));
                    assert(profile_views(self.entries@.update(i as int, (name, config))) =~= t);
                }
                let mut v: Vec<(String, V)> = Vec::new();
                std::mem::swap(&mut v, &mut self.entries);
                v.set(i, (name, config));
                self.entries = v;
            },
            None => {
                proof {
                    let t = s.push((nv, cv));
                    assert forall|a: int, b: int| 0 <= a < b < t.len() implies t[a].0 != t[b].0 by {
                        assert(t[a] == s[a]);
                        if b < s.len() {
                            assert(t[b] == s[b]);
                        } else {
                            assert(!assoc_map(s).dom().contains(nv));
                        }
                    }
                    assert(t.drop_last() =~= s);
                    assert(profile_views(self.entries@.push((name, config))) =~= t);
                }
                let mut v: Vec<(String, V)> = Vec::new();
                std::mem::swap(&mut v, &mut self.entries);
                v.push((name, config));
                self.entries = v;
            },
        }
    }

    /// Removes the entry called `name`, if there is one.
    pub fn remove(&mut self, name: &str)
        ensures
            final(self)@ == old(self)@.remove(name@),
    {
        let _ = self.take(name);
    }

    /// Removes the entry called `name`, if there is one, and hands its value out.
    pub fn take(&mut self, name: &str) -> (r: Option<V>)
        ensures
            final(self)@ == old(self)@.remove(name@),
            match r {
                Some(v) => old(self)@.dom().contains(name@) && old(self)@[name@] == v@,
                None => !old(self)@.dom().contains(name@),
            },
    {
        proof {
            use_type_invariant(&*self);
            lemma_assoc_map_dom(profile_views(self.entries@));
        }
        let ghost s = profile_views(self.entries@);
        match self.position(name) {
            Some(i) => {
                proof {
                    let t = s.remove(i as int);
                    assert forall|a: int, b: int| 0 <= a < b < t.len() implies t[a].0 != t[b].0 by {
                        let sa = if a < i { a } else { a + 1 };
                        let sb = if b < i { b } else { b + 1 };
                        assert(t[a] == s[sa] && t[b] == s[sb]);
                    }
                    lemma_assoc_map_dom(t);
                    assert forall|x: Seq<char>| #[trigger]
                        assoc_map(t).dom().contains(x) == assoc_map(s).remove(name@).dom().contains(
                            x,
                        ) by {
                        if assoc_map(s).dom().contains(x) {
                            let p = choose|p: int| 0 <= p < s.len() && s[p].0 == x;
                            if p < i {
                                assert(t[p] == s[p]);
                            } else if p > i {
                                assert(t[p - 1] == s[p]);
                            }
                        }
                        if assoc_map(t).dom().contains(x) {
                            let p = choose|p: int| 0 <= p < t.len() && t[p].0 == x;
                            let sp = if p < i { p } else { p + 1 };
                            assert(t[p] == s[sp]);
                        }
                    }
                    assert forall|x: Seq<char>| #[trigger]
                        assoc_map(t).dom().contains(x) implies assoc_map(t)[x] == assoc_map(
                            s,
                        ).remove(name@)[x] by {
                        let p = choose|p: int| 0 <= p < t.len() && t[p].0 == x;
                        lemma_assoc_map_at(t, p);
                        let sp = if p < i { p } else { p + 1 };
                        assert(t[p] == s[sp]);
                        lemma_assoc_map_at(s, sp);
                    }
                    assert(assoc_map(t) =~= assoc_map(s).remove(name@));
                    assert(profile_views(self.entries@.remove(i as int)) =~= t);
                }
                proof {
                    lemma_assoc_map_at(s, i as int);
                }
                let mut v: Vec<(String, V)> = Vec::new();
                std::mem::swap(&mut v, &mut self.entries);
                let (_, val) = v.remove(i);
                self.entries = v;
                Some(val)
            },
            None => {
                assert(s.len() >= 0);
                assert(assoc_map(s) =~= assoc_map(s).remove(name@));
                None
            },
        }
    }
}


// ---------------------------------------------------------------------------
// The settings file `llamacpp_config.json`
// ---------------------------------------------------------------------------

/// The key of the entry that records which profile was used last.
pub open spec fn meta_key() -> Seq<char> {
    "__meta__"@
}

/// An entry of the settings file as the launcher reads it: its key, the profile settings it
/// holds (when it reads as settings), and its `last_profile` text (when it has one).
pub struct StoredEntry {
    pub key: String,
    pub config: Option<Config>,
    pub last_profile: Option<String>,
}

/// The profiles and the last profile read from the entries `es`: the `__meta__` entry gives the
/// last profile, every other entry that reads as settings is a profile.
pub open spec fn read_entries(es: Seq<StoredEntry>) -> (Map<Seq<char>, ConfigView>, Seq<char>)
    decreases es.len(),
{
    if es.len() == 0 {
        (Map::empty(), seq![])
    } else {
        let st = read_entries(es.drop_last());
        let e = es.last();
        if e.key@ == meta_key() {
            match e.last_profile {
                Some(l) => (st.0, l@),
                None => st,
            }
        } else {
            match e.config {
                Some(c) => (st.0.insert(e.key@, c@), st.1),
                None => st,
            }
        }
    }
}

/// The profiles of the settings file, and the last profile used: empty unless it names one of
/// the profiles.
pub open spec fn loaded_profiles(es: Seq<StoredEntry>) -> (Map<Seq<char>, ConfigView>, Seq<char>) {
    let st = read_entries(es);
    (st.0, if st.0.dom().contains(st.1) {
        st.1
    } else {
        seq![]
    })
}

/// `entries` are the entries of the settings file (none when it is missing or unreadable).
pub fn load_profiles(entries: Vec<StoredEntry>) -> (r: (Profiles, String))
    ensures
        (r.0@, r.1@) == loaded_profiles(entries@),
        r.1@.len() == 0 || r.0@.dom().contains(r.1@),
{
    let ghost es = entries@;
    let mut profiles: Profiles = NamedMap::new();
    let mut last_profile = String::new();
    for e in iter: entries.into_iter()
        invariant
            es == iter.seq(),
            read_entries(es.take(iter.index() as int)) == (profiles@, last_profile@),
    {
        let ghost k = iter.index();
        assert(es.take(k + 1).drop_last() =~= es.take(k as int));
        assert(es.take(k + 1).last() == e);
        if str_eq(e.key.as_str(), "__meta__") {
            match e.last_profile {
                Some(l) => {
                    last_profile = l;
                },
                None => {},
            }
        } else {
            match e.config {
                Some(c) => {
                    profiles.insert(e.key, c);
                },
                None => {},
            }
        }
    }
    assert(es.take(es.len() as int) =~= es);
    if !profiles.contains(last_profile.as_str()) {
        last_profile = String::new();
    }
    (profiles, last_profile)
}

/// A JSON value that is not an object: a string, or any other value as its JSON text.
pub enum JsonLeaf {
    Str(String),
    Raw(String),
}

pub enum JsonLeafView {
    Str(Seq<char>),
    Raw(Seq<char>),
}

impl View for JsonLeaf {
    type V = JsonLeafView;

    open spec fn view(&self) -> JsonLeafView {
        match self {
            JsonLeaf::Str(s) => JsonLeafView::Str(s@),
            JsonLeaf::Raw(s) => JsonLeafView::Raw(s@),
        }
    }
}

/// A value of the settings file: an object whose fields are leaves (deeper values as their JSON
/// text), or a leaf.
pub enum JsonNode {
    Object(NamedMap<JsonLeaf>),
    Leaf(JsonLeaf),
}

pub enum JsonNodeView {
    Object(Map<Seq<char>, JsonLeafView>),
    Leaf(JsonLeafView),
}

impl View for JsonNode {
    type V = JsonNodeView;

    open spec fn view(&self) -> JsonNodeView {
        match self {
            JsonNode::Object(m) => JsonNodeView::Object(m@),
            JsonNode::Leaf(l) => JsonNodeView::Leaf(l@),
        }
    }
}

/// The JSON document of the settings file: normally an object of profiles and the `__meta__`
/// entry.
pub enum ProfileFile {
    Object(NamedMap<JsonNode>),
    Other(JsonLeaf),
}

pub enum ProfileFileView {
    Object(Map<Seq<char>, JsonNodeView>),
    Other(JsonLeafView),
}

impl View for ProfileFile {
    type V = ProfileFileView;

    open spec fn view(&self) -> ProfileFileView {
        match self {
            ProfileFile::Object(m) => ProfileFileView::Object(m@),
            ProfileFile::Other(l) => ProfileFileView::Other(l@),
        }
    }
}

/// The fields of the `__meta__` object of `m` (none when it is missing or not an object).
pub open spec fn meta_fields(m: Map<Seq<char>, JsonNodeView>) -> Map<Seq<char>, JsonLeafView> {
    if m.dom().contains(meta_key()) {
        match m[meta_key()] {
            JsonNodeView::Object(f) => f,
            _ => Map::empty(),
        }
    } else {
        Map::empty()
    }
}

/// Saving profile `name` stores its settings (when they could be turned into JSON) under its
/// name and records `last_profile` in `__meta__`, keeping the other fields of `__meta__`. A
/// document that is not an object is kept as it is.
pub open spec fn saved_file(
    doc: ProfileFileView,
    name: Seq<char>,
    config: Option<JsonNodeView>,
    last_profile: Seq<char>,
) -> ProfileFileView {
    match doc {
        ProfileFileView::Object(m) => {
            let m1 = match config {
                Some(c) => m.insert(name, c),
                None => m,
            };
            ProfileFileView::Object(
                m1.insert(
                    meta_key(),
                    JsonNodeView::Object(
                        meta_fields(m1).insert("last_profile"@, JsonLeafView::Str(last_profile)),
                    ),
                ),
            )
        },
        ProfileFileView::Other(x) => ProfileFileView::Other(x),
    }
}

fn take_meta_fields(m: &mut NamedMap<JsonNode>) -> (r: NamedMap<JsonLeaf>)
    ensures
        r@ == meta_fields(old(m)@),
        final(m)@ == old(m)@.remove(meta_key()),
{
    match m.take("__meta__") {
        Some(JsonNode::Object(f)) => f,
        _ => NamedMap::new(),
    }
}

/// `doc` is the settings file as read (an empty object when it is missing or unreadable);
/// `config` is the profile's settings as JSON.
pub fn save_profile(doc: ProfileFile, name: &str, config: Option<JsonNode>, last_profile: &str) -> (r:
    ProfileFile)
    ensures
        r@ == saved_file(
            doc@,
            name@,
            match config {
                Some(c) => Some(c@),
                None => None,
            },
            last_profile@,
        ),
{
    match doc {
        ProfileFile::Object(mut m) => {
            match config {
                Some(c) => {
                    m.insert(String::from_str(name), c);
                },
                None => {},
            }
            let ghost m1 = m@;
            let mut meta = take_meta_fields(&mut m);
            meta.insert(String::from_str("last_profile"), JsonLeaf::Str(String::from_str(last_profile)));
            m.insert(String::from_str("__meta__"), JsonNode::Object(meta));
            assert(m@ =~= m1.insert(
                meta_key(),
                JsonNodeView::Object(meta_fields(m1).insert("last_profile"@, JsonLeafView::Str(last_profile@))),
            ));
            ProfileFile::Object(m)
        },
        ProfileFile::Other(x) => ProfileFile::Other(x),
    }
}

/// Deleting profile `name` removes its entry; when `__meta__` records it as the last profile,
/// the record is emptied. A document that is not an object is kept as it is.
pub open spec fn deleted_file(doc: ProfileFileView, name: Seq<char>) -> ProfileFileView {
    match doc {
        ProfileFileView::Object(m) => {
            let m1 = m.remove(name);
            if m1.dom().contains(meta_key()) {
                match m1[meta_key()] {
                    JsonNodeView::Object(f) => if f.dom().contains("last_profile"@) && f["last_profile"@]
                        == JsonLeafView::Str(name) {
                        ProfileFileView::Object(
                            m1.insert(
                                meta_key(),
                                JsonNodeView::Object(f.insert("last_profile"@, JsonLeafView::Str(seq![]))),
                            ),
                        )
                    } else {
                        ProfileFileView::Object(m1)
                    },
                    _ => ProfileFileView::Object(m1),
                }
            } else {
                ProfileFileView::Object(m1)
            }
        },
        ProfileFileView::Other(x) => ProfileFileView::Other(x),
    }
}

/// `doc` is the settings file as read (an empty object when it is unreadable); a missing file
/// is not deleted from.
pub fn delete_profile(doc: ProfileFile, name: &str) -> (r: ProfileFile)
    ensures
        r@ == deleted_file(doc@, name@),
{
    match doc {
        ProfileFile::Object(mut m) => {
            m.remove(name);
            let ghost m1 = m@;
            match m.take("__meta__") {
                Some(JsonNode::Object(mut f)) => {
                    let ghost fv = f@;
                    let clear = match f.get("last_profile") {
                        Some(JsonLeaf::Str(s)) => str_eq(s.as_str(), name),
                        _ => false,
                    };
                    assert(clear == (fv.dom().contains("last_profile"@) && fv["last_profile"@]
                        == JsonLeafView::Str(name@)));
                    if clear {
                        f.insert(String::from_str("last_profile"), JsonLeaf::Str(String::new()));
                    }
                    m.insert(String::from_str("__meta__"), JsonNode::Object(f));
                    assert(m1.dom().contains(meta_key()));
                    if clear {
                        assert(m@ =~= m1.insert(
                            meta_key(),
                            JsonNodeView::Object(fv.insert("last_profile"@, JsonLeafView::Str(seq![]))),
                        ));
                    } else {
                        assert(m@ =~= m1);
                    }
                },
                Some(other) => {
                    m.insert(String::from_str("__meta__"), other);
                    assert(m@ =~= m1);
                },
                None => {
                    assert(m@ =~= m1);
                },
            }
            ProfileFile::Object(m)
        },
        ProfileFile::Other(x) => ProfileFile::Other(x),
    }
}

} // verus!
