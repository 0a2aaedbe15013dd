use vstd::prelude::*;

use crate::text::{
    chars_lt, extend_str, find_char_from, from_chars, join, join_chars, views, index_of_char, lemma_index_of_char,
    lemma_lex_asymmetric, lemma_lex_irreflexive, lemma_lex_total, lemma_lex_transitive, lex_lt,
    line_spans, lines, slice_chars, span_text, spans_within, to_chars, trim, trim_bounds,
};

verus! {

// ---------------------------------------------------------------------------
// Parameters of a section: a map from keys to values, kept sorted by key
// ---------------------------------------------------------------------------

/// The entries of a section, as pairs of character sequences.
pub type Entries = Seq<(Seq<char>, Seq<char>)>;

/// Keys in strictly increasing order (so no key occurs twice).
pub open spec fn keys_sorted(s: Entries) -> bool {
    forall|i: int, j: int| 0 <= i < j < s.len() ==> lex_lt(#[trigger] s[i].0, #[trigger] s[j].0)
}

/// The map that a list of entries describes (a later entry wins).
pub open spec fn entries_map(s: Entries) -> Map<Seq<char>, Seq<char>>
    decreases s.len(),
{
    if s.len() == 0 {
        Map::empty()
    } else {
        entries_map(s.drop_last()).insert(s.last().0, s.last().1)
    }
}

/// The entries of a finite map, sorted by key.
pub open spec fn sorted_entries(m: Map<Seq<char>, Seq<char>>) -> Entries {
    choose|s: Entries| keys_sorted(s) && entries_map(s) == m
}

pub proof fn lemma_entries_map_dom(s: Entries)
    ensures
        forall|k: Seq<char>|
            #![trigger entries_map(s).dom().contains(k)]
            entries_map(s).dom().contains(k) <==> exists|i: int| 0 <= i < s.len() && s[i].0 == k,
    decreases s.len(),
{
    if s.len() > 0 {
        lemma_entries_map_dom(s.drop_last());
        assert forall|k: Seq<char>| entries_map(s).dom().contains(k) implies exists|i: int|
            0 <= i < s.len() && s[i].0 == k by {
            if k != s.last().0 {
                assert(entries_map(s.drop_last()).dom().contains(k));
                let i = choose|i: int| 0 <= i < s.drop_last().len() && s.drop_last()[i].0 == k;
                assert(s[i].0 == k);
            } else {
                assert(s[s.len() - 1].0 == k);
            }
        }
        assert forall|k: Seq<char>| (exists|i: int| 0 <= i < s.len() && s[i].0 == k) implies entries_map(
            s,
        ).dom().contains(k) by {
            let i = choose|i: int| 0 <= i < s.len() && s[i].0 == k;
            if i < s.len() - 1 {
                assert(s.drop_last()[i].0 == k);
                assert(entries_map(s.drop_last()).dom().contains(k));
            }
        }
    }
}

pub proof fn lemma_entries_map_at(s: Entries, i: int)
    requires
        keys_sorted(s),
        0 <= i < s.len(),
    ensures
        entries_map(s).dom().contains(s[i].0),
        entries_map(s)[s[i].0] == s[i].1,
    decreases s.len(),
{
    if i < s.len() - 1 {
        let t = s.drop_last();
        assert(keys_sorted(t)) by {
            assert forall|a: int, b: int| 0 <= a < b < t.len() implies lex_lt(t[a].0, t[b].0) by {
                assert(t[a] == s[a] && t[b] == s[b]);
            }
        }
        assert(t[i] == s[i]);
        lemma_entries_map_at(t, i);
        assert(lex_lt(s[i].0, s[s.len() - 1].0));
        lemma_lex_irreflexive(s[i].0);
    }
}

proof fn lemma_keys_sorted_drop_last(s: Entries)
    requires
        keys_sorted(s),
        s.len() > 0,
    ensures
        keys_sorted(s.drop_last()),
        forall|k: Seq<char>| #[trigger]
            entries_map(s.drop_last()).dom().contains(k) ==> lex_lt(k, s.last().0),
{
    let t = s.drop_last();
    assert forall|a: int, b: int| 0 <= a < b < t.len() implies lex_lt(t[a].0, t[b].0) by {
        assert(t[a] == s[a] && t[b] == s[b]);
    }
    lemma_entries_map_dom(t);
    assert forall|k: Seq<char>| #[trigger] entries_map(t).dom().contains(k) implies lex_lt(
        k,
        s.last().0,
    ) by {
        let i = choose|i: int| 0 <= i < t.len() && t[i].0 == k;
        assert(t[i] == s[i]);
    }
}

/// Two key-sorted entry lists that describe the same map are the same list.
pub proof fn lemma_sorted_entries_canonical(a: Entries, b: Entries)
    requires
        keys_sorted(a),
        keys_sorted(b),
        entries_map(a) == entries_map(b),
    ensures
        a == b,
    decreases a.len() + b.len(),
{
    lemma_entries_map_dom(a);
    lemma_entries_map_dom(b);
    if a.len() == 0 {
        if b.len() > 0 {
            assert(entries_map(b).dom().contains(b[b.len() - 1].0));
        }
        assert(a =~= b);
    } else if b.len() == 0 {
        assert(entries_map(a).dom().contains(a[a.len() - 1].0));
    } else {
        let ka = a.last().0;
        let kb = b.last().0;
        assert(entries_map(a).dom().contains(ka));
        assert(entries_map(b).dom().contains(kb));
        let j = choose|j: int| 0 <= j < b.len() && b[j].0 == ka;
        let i = choose|i: int| 0 <= i < a.len() && a[i].0 == kb;
        if ka != kb {
            assert(j < b.len() - 1);
            assert(i < a.len() - 1);
            assert(lex_lt(ka, kb));
            assert(lex_lt(kb, ka));
            lemma_lex_asymmetric(ka, kb);
        }
        lemma_entries_map_at(a, a.len() - 1);
        lemma_entries_map_at(b, b.len() - 1);
        lemma_keys_sorted_drop_last(a);
        lemma_keys_sorted_drop_last(b);
        let ma = entries_map(a.drop_last());
        let mb = entries_map(b.drop_last());
        assert(ma =~= entries_map(a).remove(ka)) by {
            lemma_lex_irreflexive(ka);
        }
        assert(mb =~= entries_map(b).remove(kb)) by {
            lemma_lex_irreflexive(kb);
        }
        lemma_sorted_entries_canonical(a.drop_last(), b.drop_last());
        assert(a =~= a.drop_last().push(a.last()));
        assert(b =~= b.drop_last().push(b.last()));
    }
}

pub proof fn lemma_sorted_entries_of(s: Entries)
    requires
        keys_sorted(s),
    ensures
        sorted_entries(entries_map(s)) == s,
{
    let m = entries_map(s);
    assert(keys_sorted(s) && entries_map(s) == m);
    let c = sorted_entries(m);
    lemma_sorted_entries_canonical(c, s);
}

/// A map from keys to values, as the sections of a `config.ini` hold them.
pub struct Params {
    entries: Vec<(String, String)>,
}

pub open spec fn entry_views(v: Seq<(String, String)>) -> Entries {
    v.map_values(|e: (String, String)| (e.0@, e.1@))
}

pub proof fn lemma_entry_views_push(v: Seq<(String, String)>, x: (String, String))
    ensures
        entry_views(v.push(x)) == entry_views(v).push((x.0@, x.1@)),
{
    assert(entry_views(v.push(x)) =~= entry_views(v).push((x.0@, x.1@)));
}

impl Params {
    /// The entries, sorted by key.
    pub closed spec fn entries(&self) -> Entries {
        entry_views(self.entries@)
    }

    #[verifier::type_invariant]
    closed spec fn sorted_by_key(&self) -> bool {
        keys_sorted(entry_views(self.entries@))
    }
}

impl View for Params {
    type V = Map<Seq<char>, Seq<char>>;

    closed spec fn view(&self) -> Map<Seq<char>, Seq<char>> {
        entries_map(entry_views(self.entries@))
    }
}

impl Params {
    pub fn new() -> (r: Params)
        ensures
            r@ == Map::<Seq<char>, Seq<char>>::empty(),
    {
        Params { entries: Vec::new() }
    }

    pub fn len(&self) -> (r: usize)
        ensures
            r == self@.len(),
            r == self.entries().len(),
    {
        proof {
            use_type_invariant(self);
            lemma_entries_finite(self.entries());
        }
        self.entries.len()
    }

    /// The key and value of the `i`-th entry in key order.
    pub fn entry(&self, i: usize) -> (r: (&String, &String))
        requires
            i < self.entries().len(),
        ensures
            (r.0@, r.1@) == self.entries()[i as int],
    {
        let e = &self.entries[i];
        (&e.0, &e.1)
    }

    /// Sets `key` to `value`, replacing any value the key had.
    pub fn insert(&mut self, key: String, value: String)
        ensures
            final(self)@ == old(self)@.insert(key@, value@),
    {
        proof {
            use_type_invariant(&*self);
        }
        let kc = to_chars(key.as_str());
        let n = self.entries.len();
        let ghost s = entry_views(self.entries@);
        let mut i: usize = 0;
        while i < n
            invariant
                n == self.entries@.len(),
                s == entry_views(self.entries@),
                keys_sorted(s),
                kc@ == key@,
                i <= n,
                forall|j: int| 0 <= j < i ==> lex_lt(#[trigger] s[j].0, key@),
            ensures
                i <= n,
                forall|j: int| 0 <= j < i ==> lex_lt(#[trigger] s[j].0, key@),
                i < n ==> !lex_lt(s[i as int].0, key@),
            decreases n - i,
        {
            let ec = to_chars(self.entries[i].0.as_str());
            assert(s[i as int].0 == ec@);
            if !chars_lt(&ec, &kc) {
                break;
            }
            i = i + 1;
        }
        // here every key before i is smaller than `key`, and the key at i (if any) is not
        let replace = i < n && self.entries[i].0 == key;
        let mut next: Vec<(String, String)> = Vec::new();
        let mut j: usize = 0;
        while j < i
            invariant
                j <= i <= n,
                n == self.entries@.len(),
                s == entry_views(self.entries@),
                entry_views(next@) == s.take(j as int),
            decreases i - j,
        {
            let e = &self.entries[j];
            let k = e.0.clone();
            let v = e.1.clone();
            assert((k@, v@) == s[j as int]);
            proof {
                lemma_entry_views_push(next@, (k, v));
            }
            next.push((k, v));
            assert(entry_views(next@) =~= s.take(j + 1));
            j = j + 1;
        }
        proof {
            lemma_entry_views_push(next@, (key, value));
        }
        next.push((key, value));
        let mut j2: usize = if replace {
            i + 1
        } else {
            i
        };
        let ghost start = j2;
        while j2 < n
            invariant
                start <= j2 <= n,
                n == self.entries@.len(),
                s == entry_views(self.entries@),
                entry_views(next@) == s.take(i as int).push((key@, value@)) + s.subrange(
                    start as int,
                    j2 as int,
                ),
            decreases n - j2,
        {
            let e = &self.entries[j2];
            let k = e.0.clone();
            let v = e.1.clone();
            assert((k@, v@) == s[j2 as int]);
            proof {
                lemma_entry_views_push(next@, (k, v));
            }
            next.push((k, v));
            assert(entry_views(next@) =~= s.take(i as int).push((key@, value@)) + s.subrange(
                start as int,
                j2 + 1,
            ));
            j2 = j2 + 1;
        }
        proof {
            let t = entry_views(next@);
            assert(t =~= s.take(i as int).push((key@, value@)) + s.subrange(start as int, n as int));
            // the key at position i, if any, is larger than `key` unless it is `key`
            if i < n {
                assert(!lex_lt(s[i as int].0, key@) || i == n);
                lemma_lex_total(s[i as int].0, key@);
            }
            assert forall|a: int, b: int| 0 <= a < b < t.len() implies lex_lt(
                #[trigger] t[a].0,
                #[trigger] t[b].0,
            ) by {
                if b < i {
                    assert(t[a] == s[a] && t[b] == s[b]);
                } else if b == i {
                    assert(t[a] == s[a]);
                } else {
                    let sb = b - i - 1 + start;
                    assert(t[b] == s[sb]);
                    if a < i {
                        assert(t[a] == s[a]);
                        assert(lex_lt(s[a].0, key@));
                        if sb != i {
                            assert(lex_lt(s[i as int].0, s[sb].0));
                            if s[i as int].0 != key@ {
                                lemma_lex_transitive(key@, s[i as int].0, s[sb].0);
                            }
                            lemma_lex_transitive(s[a].0, key@, s[sb].0);
                        } else {
                            lemma_lex_transitive(s[a].0, key@, s[sb].0);
                        }
                    } else if a == i {
                        assert(t[a].0 == key@);
                        if sb == i as int {
                        } else {
                            assert(lex_lt(s[i as int].0, s[sb].0));
                            if s[i as int].0 != key@ {
                                lemma_lex_transitive(key@, s[i as int].0, s[sb].0);
                            }
                        }
                    } else {
                        let sa = a - i - 1 + start;
                        assert(t[a] == s[sa]);
                    }
                }
            }
            lemma_entries_map_dom(t);
            lemma_entries_map_dom(s);
            let m_old = entries_map(s);
            let m_new = entries_map(t);
            assert forall|x: Seq<char>| m_new.dom().contains(x) <==> m_old.insert(
                key@,
                value@,
            ).dom().contains(x) by {
                if m_new.dom().contains(x) {
                    let p = choose|p: int| 0 <= p < t.len() && t[p].0 == x;
                    if p < i {
                        assert(t[p] == s[p]);
                    } else if p > i {
                        assert(t[p] == s[p - i - 1 + start]);
                    }
                }
                if m_old.dom().contains(x) && x != key@ {
                    let p = choose|p: int| 0 <= p < s.len() && s[p].0 == x;
                    if p < i {
                        assert(t[p] == s[p]);
                    } else if p >= start {
                        assert(t[p - start + i + 1] == s[p]);
                    } else {
                        assert(p == i && replace);
                    }
                }
                if x == key@ {
                    assert(t[i as int].0 == key@);
                }
            }
            assert forall|x: Seq<char>| #[trigger] m_new.dom().contains(x) implies m_new[x]
                == m_old.insert(key@, value@)[x] by {
                let p = choose|p: int| 0 <= p < t.len() && t[p].0 == x;
                lemma_entries_map_at(t, p);
                if p < i {
                    assert(t[p] == s[p]);
                    lemma_entries_map_at(s, p);
                    lemma_lex_irreflexive(key@);
                } else if p > i {
                    let q = p - i - 1 + start;
                    assert(t[p] == s[q]);
                    lemma_entries_map_at(s, q);
                    assert(lex_lt(t[i as int].0, t[p].0));
                    lemma_lex_irreflexive(key@);
                }
            }
            assert(m_new =~= m_old.insert(key@, value@));
        }
        self.entries = next;
    }

    /// The value of `key`, if it has one.
    pub fn get(&self, key: &str) -> (r: Option<&String>)
        ensures
            match r {
                Some(v) => self@.dom().contains(key@) && self@[key@] == v@,
                None => !self@.dom().contains(key@),
            },
    {
        proof {
            use_type_invariant(self);
            lemma_entries_map_dom(entry_views(self.entries@));
        }
        let kc = to_chars(key);
        let n = self.entries.len();
        let ghost s = entry_views(self.entries@);
        for i in 0..n
            invariant
                n == self.entries@.len(),
                s == entry_views(self.entries@),
                keys_sorted(s),
                kc@ == key@,
                forall|j: int| 0 <= j < i ==> s[j].0 != key@,
        {
            let e = &self.entries[i];
            assert(s[i as int] == (e.0@, e.1@));
            if crate::text::str_eq(e.0.as_str(), key) {
                proof {
                    lemma_entries_map_at(s, i as int);
                }
                return Some(&e.1);
            }
        }
        None
    }

    /// Whether both hold the same keys with the same values.
    pub fn same_as(&self, other: &Params) -> (r: bool)
        ensures
            r == (self@ == other@),
    {
        proof {
            use_type_invariant(self);
            use_type_invariant(other);
        }
        let n = self.entries.len();
        if n != other.entries.len() {
            proof {
                if self@ == other@ {
                    lemma_sorted_entries_canonical(self.entries(), other.entries());
                }
            }
            return false;
        }
        let ghost a = entry_views(self.entries@);
        let ghost b = entry_views(other.entries@);
        for i in 0..n
            invariant
                n == self.entries@.len() == other.entries@.len(),
                a == entry_views(self.entries@),
                b == entry_views(other.entries@),
                keys_sorted(a),
                keys_sorted(b),
                forall|j: int| 0 <= j < i ==> a[j] == b[j],
        {
            let x = &self.entries[i];
            let y = &other.entries[i];
            assert(a[i as int] == (x.0@, x.1@));
            assert(b[i as int] == (y.0@, y.1@));
            if x.0 != y.0 || x.1 != y.1 {
                proof {
                    if entries_map(a) == entries_map(b) {
                        lemma_sorted_entries_canonical(a, b);
                    }
                }
                return false;
            }
        }
        assert(a =~= b);
        true
    }
}

impl Params {
    /// A parameter map has finitely many keys.
    pub proof fn lemma_view_finite(&self)
        ensures
            self@.dom().finite(),
    {
        lemma_entries_finite(self.entries());
    }
}

pub proof fn lemma_entries_finite(s: Entries)
    ensures
        entries_map(s).dom().finite(),
        keys_sorted(s) ==> entries_map(s).len() == s.len(),
    decreases s.len(),
{
    if s.len() > 0 {
        lemma_entries_finite(s.drop_last());
        if keys_sorted(s) {
            lemma_keys_sorted_drop_last(s);
            lemma_lex_irreflexive(s.last().0);
        }
    }
}


// ---------------------------------------------------------------------------
// Sections and their parsing
// ---------------------------------------------------------------------------

/// A `[name]` section of a `config.ini` with its parameters.
pub struct Section {
    pub name: String,
    pub params: Params,
}

pub type SectionView = (Seq<char>, Map<Seq<char>, Seq<char>>);

pub open spec fn sections_view(v: Seq<Section>) -> Seq<SectionView> {
    v.map_values(|s: Section| (s.name@, s.params@))
}

pub proof fn lemma_sections_view_push(v: Seq<Section>, x: Section)
    ensures
        sections_view(v.push(x)) == sections_view(v).push((x.name@, x.params@)),
{
    assert(sections_view(v.push(x)) =~= sections_view(v).push((x.name@, x.params@)));
}

/// Where a scan of a `config.ini` stands after some lines: the sections closed so far, the
/// name of the open section (empty before the first header, or after `[]`), and the
/// parameters gathered since the last header that closed a section.
pub struct ScanState {
    pub sections: Seq<SectionView>,
    pub name: Seq<char>,
    pub params: Map<Seq<char>, Seq<char>>,
}

pub open spec fn scan_start() -> ScanState {
    ScanState { sections: seq![], name: seq![], params: Map::empty() }
}

/// One line of a `config.ini`: blank lines and `#`/`;` comments are skipped; `[name]` opens a
/// section (closing the open one, if it has a name); `key = value` sets a parameter (both
/// trimmed, at the first `=`); any other line is skipped.
pub open spec fn scan_line(st: ScanState, raw: Seq<char>) -> ScanState {
    let l = trim(raw);
    if l.len() == 0 || l[0] == '#' || l[0] == ';' {
        st
    } else if l[0] == '[' && l.last() == ']' {
        if st.name.len() > 0 {
            ScanState {
                sections: st.sections.push((st.name, st.params)),
                name: l.subrange(1, l.len() - 1),
                params: Map::empty(),
            }
        } else {
            ScanState { sections: st.sections, name: l.subrange(1, l.len() - 1), params: st.params }
        }
    } else if index_of_char(l, '=') < l.len() {
        let e = index_of_char(l, '=') as int;
        ScanState {
            sections: st.sections,
            name: st.name,
            params: st.params.insert(trim(l.subrange(0, e)), trim(l.subrange(e + 1, l.len() as int))),
        }
    } else {
        st
    }
}

pub open spec fn scan_lines(ls: Seq<Seq<char>>) -> ScanState
    decreases ls.len(),
{
    if ls.len() == 0 {
        scan_start()
    } else {
        scan_line(scan_lines(ls.drop_last()), ls.last())
    }
}

/// The sections of a `config.ini` text, in order (a name may occur more than once).
pub open spec fn ini_sections(data: Seq<char>) -> Seq<SectionView> {
    let st = scan_lines(lines(data));
    if st.name.len() > 0 {
        st.sections.push((st.name, st.params))
    } else {
        st.sections
    }
}

/// Reads the sections of a `config.ini` text.
pub fn parse_sections(data: &str) -> (r: Vec<Section>)
    ensures
        sections_view(r@) == ini_sections(data@),
{
    let v = to_chars(data);
    let spans = line_spans(&v);
    let ghost ls = span_text(v@, spans@);
    let n = spans.len();
    let mut sections: Vec<Section> = Vec::new();
    let mut name: Vec<char> = Vec::new();
    let mut params = Params::new();
    for i in 0..n
        invariant
            n == spans@.len(),
            ls == span_text(v@, spans@),
            spans_within(v@, spans@),
            ({
                let st = scan_lines(ls.take(i as int));
                &&& sections_view(sections@) == st.sections
                &&& name@ == st.name
                &&& params@ == st.params
            }),
    {
        let (a, b) = spans[i];
        assert(ls[i as int] == v@.subrange(a as int, b as int));
        assert(ls.take(i + 1).drop_last() =~= ls.take(i as int));
        let (ta, tb) = trim_bounds(&v, a, b);
        let ghost l = v@.subrange(ta as int, tb as int);
        if ta == tb || v[ta] == '#' || v[ta] == ';' {
        } else if v[ta] == '[' && v[tb - 1] == ']' {
            let new_name = slice_chars(&v, ta + 1, tb - 1);
            assert(new_name@ =~= l.subrange(1, l.len() - 1));
            if name.len() > 0 {
                let mut done = Params::new();
                std::mem::swap(&mut done, &mut params);
                let sec = Section { name: from_chars(&name), params: done };
                proof {
                    lemma_sections_view_push(sections@, sec);
                }
                sections.push(sec);
            }
            name = new_name;
        } else {
            let e = find_char_from(&v, ta, '=');
            proof {
                assert(v@.subrange(ta as int, v@.len() as int).subrange(0, l.len() as int) =~= l);
                lemma_index_of_char(l, '=');
                lemma_index_of_char(v@.subrange(ta as int, v@.len() as int), '=');
                if e < tb {
                    crate::text::lemma_index_of_char_unique(l, '=', e - ta);
                } else {
                    assert forall|k: int| 0 <= k < l.len() implies l[k] != '=' by {
                        assert(l[k] == v@.subrange(ta as int, v@.len() as int)[k]);
                    }
                    crate::text::lemma_index_of_char_unique(l, '=', l.len() as int);
                }
            }
            if e < tb {
                let (ka, kb) = trim_bounds(&v, ta, e);
                let (va, vb) = trim_bounds(&v, e + 1, tb);
                assert(v@.subrange(ta as int, e as int) =~= l.subrange(0, e - ta));
                assert(v@.subrange(e + 1, tb as int) =~= l.subrange(e - ta + 1, l.len() as int));
                let key = from_chars(&slice_chars(&v, ka, kb));
                let val = from_chars(&slice_chars(&v, va, vb));
                params.insert(key, val);
            }
        }
    }
    assert(ls.take(n as int) =~= ls);
    if name.len() > 0 {
        let sec = Section { name: from_chars(&name), params };
        proof {
            lemma_sections_view_push(sections@, sec);
        }
        sections.push(sec);
    }
    sections
}


// ---------------------------------------------------------------------------
// Writing sections back
// ---------------------------------------------------------------------------

pub open spec fn param_line(e: (Seq<char>, Seq<char>)) -> Seq<char> {
    e.0 + " = "@ + e.1
}

/// `[name]`, then `key = value` for each parameter in key order, then an empty line.
pub open spec fn section_lines(sec: SectionView) -> Seq<Seq<char>> {
    seq!["["@ + sec.0 + "]"@] + sorted_entries(sec.1).map_values(|e: (Seq<char>, Seq<char>)| param_line(e))
        + seq![Seq::<char>::empty()]
}

/// The lines of a `config.ini`: an optional `# version = 1` header with an empty line, then
/// the sections in order.
pub open spec fn ini_lines(secs: Seq<SectionView>, with_version: bool) -> Seq<Seq<char>>
    decreases secs.len(),
{
    if secs.len() == 0 {
        if with_version {
            seq!["# version = 1"@, Seq::<char>::empty()]
        } else {
            seq![]
        }
    } else {
        ini_lines(secs.drop_last(), with_version) + section_lines(secs.last())
    }
}

pub open spec fn ini_text(secs: Seq<SectionView>, with_version: bool) -> Seq<char> {
    join(ini_lines(secs, with_version), "\n"@)
}

proof fn lemma_views_push(v: Seq<Vec<char>>, x: Vec<char>)
    ensures
        views(v.push(x)) == views(v).push(x@),
{
    assert(views(v.push(x)) =~= views(v).push(x@));
}

fn push_line(lines: &mut Vec<Vec<char>>, line: Vec<char>)
    ensures
        views(final(lines)@) == views(old(lines)@).push(line@),
{
    proof {
        lemma_views_push(lines@, line);
    }
    lines.push(line);
}

fn append_section_lines(lines: &mut Vec<Vec<char>>, sec: &Section)
    ensures
        views(final(lines)@) == views(old(lines)@) + section_lines((sec.name@, sec.params@)),
{
    proof {
        use_type_invariant(&sec.params);
        lemma_sorted_entries_of(sec.params.entries());
    }
    let ghost start = views(lines@);
    let ghost es = sec.params.entries();
    let mut header: Vec<char> = Vec::new();
    extend_str(&mut header, "[");
    extend_str(&mut header, sec.name.as_str());
    extend_str(&mut header, "]");
    push_line(lines, header);
    let n = sec.params.len();
    for i in 0..n
        invariant
            n == es.len(),
            es == sec.params.entries(),
            views(lines@) == start + seq!["["@ + sec.name@ + "]"@] + es.take(i as int).map_values(
                |e: (Seq<char>, Seq<char>)| param_line(e),
            ),
    {
        let (k, v) = sec.params.entry(i);
        let mut l: Vec<char> = Vec::new();
        extend_str(&mut l, k.as_str());
        extend_str(&mut l, " = ");
        extend_str(&mut l, v.as_str());
        push_line(lines, l);
        assert(es.take(i + 1).map_values(|e: (Seq<char>, Seq<char>)| param_line(e)) =~= es.take(
            i as int,
        ).map_values(|e: (Seq<char>, Seq<char>)| param_line(e)).push(param_line(es[i as int])));
    }
    push_line(lines, Vec::new());
    assert(es.take(n as int) =~= es);
    assert(views(lines@) =~= start + section_lines((sec.name@, sec.params@)));
}

/// Writes sections as `config.ini` text; `with_version` puts a `# version = 1` header first.
pub fn sections_to_ini(sections: &Vec<Section>, with_version: bool) -> (r: String)
    ensures
        r@ == ini_text(sections_view(sections@), with_version),
{
    let mut lines: Vec<Vec<char>> = Vec::new();
    if with_version {
        let mut h: Vec<char> = Vec::new();
        extend_str(&mut h, "# version = 1");
        push_line(&mut lines, h);
        push_line(&mut lines, Vec::new());
    }
    let ghost sv = sections_view(sections@);
    assert(views(lines@) =~= ini_lines(sv.take(0), with_version));
    let n = sections.len();
    for i in 0..n
        invariant
            n == sections@.len(),
            sv == sections_view(sections@),
            views(lines@) == ini_lines(sv.take(i as int), with_version),
    {
        append_section_lines(&mut lines, &sections[i]);
        assert(sv.take(i + 1).drop_last() =~= sv.take(i as int));
    }
    assert(sv.take(n as int) =~= sv);
    let text = join_chars(&lines, "\n");
    from_chars(&text)
}


// ---------------------------------------------------------------------------
// Looking sections up; reading `key = value` lines
// ---------------------------------------------------------------------------

/// Index of the first section called `name`, or `secs.len()` when there is none.
pub open spec fn first_named(secs: Seq<SectionView>, name: Seq<char>) -> nat
    decreases secs.len(),
{
    if secs.len() == 0 {
        0
    } else if secs[0].0 == name {
        0
    } else {
        1 + first_named(secs.drop_first(), name)
    }
}

pub proof fn lemma_first_named(secs: Seq<SectionView>, name: Seq<char>)
    ensures
        first_named(secs, name) <= secs.len(),
        first_named(secs, name) < secs.len() ==> secs[first_named(secs, name) as int].0 == name,
        forall|k: int| 0 <= k < first_named(secs, name) ==> secs[k].0 != name,
        (exists|k: int| 0 <= k < secs.len() && secs[k].0 == name) <==> first_named(secs, name)
            < secs.len(),
    decreases secs.len(),
{
    if secs.len() > 0 && secs[0].0 != name {
        lemma_first_named(secs.drop_first(), name);
        assert forall|k: int| 0 <= k < first_named(secs, name) implies secs[k].0 != name by {
            if k > 0 {
                assert(secs[k] == secs.drop_first()[k - 1]);
            }
        }
        if exists|k: int| 0 <= k < secs.len() && secs[k].0 == name {
            let k = choose|k: int| 0 <= k < secs.len() && secs[k].0 == name;
            assert(secs.drop_first()[k - 1].0 == name);
        }
        if first_named(secs, name) < secs.len() {
            let f = first_named(secs.drop_first(), name) as int;
            assert(secs[f + 1] == secs.drop_first()[f]);
        }
    }
}

pub proof fn lemma_first_named_unique(secs: Seq<SectionView>, name: Seq<char>, i: int)
    requires
        0 <= i <= secs.len(),
        i < secs.len() ==> secs[i].0 == name,
        forall|k: int| 0 <= k < i ==> secs[k].0 != name,
    ensures
        first_named(secs, name) == i,
    decreases secs.len(),
{
    if secs.len() > 0 && secs[0].0 != name {
        assert forall|k: int| 0 <= k < i - 1 implies secs.drop_first()[k].0 != name by {
            assert(secs.drop_first()[k] == secs[k + 1]);
        }
        lemma_first_named_unique(secs.drop_first(), name, i - 1);
    }
}

/// The position of the first section called `name`, or `sections.len()`.
pub fn find_section(sections: &Vec<Section>, name: &str) -> (r: usize)
    ensures
        r == first_named(sections_view(sections@), name@),
{
    let n = sections.len();
    let ghost sv = sections_view(sections@);
    for i in 0..n
        invariant
            n == sections@.len(),
            sv == sections_view(sections@),
            forall|k: int| 0 <= k < i ==> sv[k].0 != name@,
    {
        assert(sv[i as int].0 == sections@[i as int].name@);
        if crate::text::str_eq(sections[i].name.as_str(), name) {
            proof {
                lemma_first_named_unique(sv, name@, i as int);
            }
            return i;
        }
    }
    proof {
        lemma_first_named_unique(sv, name@, n as int);
    }
    n
}

/// The `key = value` pairs of some lines: at the first `=` of each line that has one, key and
/// value trimmed; a later line wins.
pub open spec fn kv_lines(ls: Seq<Seq<char>>) -> Map<Seq<char>, Seq<char>>
    decreases ls.len(),
{
    if ls.len() == 0 {
        Map::empty()
    } else {
        let m = kv_lines(ls.drop_last());
        let l = ls.last();
        let e = index_of_char(l, '=') as int;
        if e < l.len() {
            m.insert(trim(l.subrange(0, e)), trim(l.subrange(e + 1, l.len() as int)))
        } else {
            m
        }
    }
}

/// The `key = value` pairs of the lines of `text`.
pub fn params_of_text(text: &str) -> (r: Params)
    ensures
        r@ == kv_lines(lines(text@)),
{
    let v = to_chars(text);
    let spans = line_spans(&v);
    let ghost ls = span_text(v@, spans@);
    let n = spans.len();
    let mut params = Params::new();
    for i in 0..n
        invariant
            n == spans@.len(),
            ls == span_text(v@, spans@),
            spans_within(v@, spans@),
            params@ == kv_lines(ls.take(i as int)),
    {
        let (a, b) = spans[i];
        let ghost l = v@.subrange(a as int, b as int);
        assert(ls[i as int] == l);
        assert(ls.take(i + 1).drop_last() =~= ls.take(i as int));
        let e = find_char_from(&v, a, '=');
        proof {
            assert(v@.subrange(a as int, v@.len() as int).subrange(0, l.len() as int) =~= l);
            lemma_index_of_char(v@.subrange(a as int, v@.len() as int), '=');
            if e < b {
                crate::text::lemma_index_of_char_unique(l, '=', e - a);
            } else {
                assert forall|k: int| 0 <= k < l.len() implies l[k] != '=' by {
                    assert(l[k] == v@.subrange(a as int, v@.len() as int)[k]);
                }
                crate::text::lemma_index_of_char_unique(l, '=', l.len() as int);
            }
        }
        if e < b {
            let (ka, kb) = trim_bounds(&v, a, e);
            let (va, vb) = trim_bounds(&v, e + 1, b);
            assert(v@.subrange(a as int, e as int) =~= l.subrange(0, e - a));
            assert(v@.subrange(e + 1, b as int) =~= l.subrange(e - a + 1, l.len() as int));
            let key = from_chars(&slice_chars(&v, ka, kb));
            let val = from_chars(&slice_chars(&v, va, vb));
            params.insert(key, val);
        }
    }
    assert(ls.take(n as int) =~= ls);
    params
}

} // verus!
