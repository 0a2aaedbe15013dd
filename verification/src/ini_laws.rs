use vstd::prelude::*;

use crate::ini::{
    entries_map, ini_lines, ini_sections, ini_text, keys_sorted, lemma_entries_map_at,
    lemma_entries_map_dom, param_line, scan_line, scan_lines, scan_start, section_lines,
    sorted_entries, Entries, ScanState, SectionView,
};
use crate::text::{
    index_of_char, is_ws, join, lemma_index_of_char, lemma_index_of_char_unique, lemma_lex_asymmetric,
    lemma_lex_irreflexive, lemma_lex_total, lemma_lex_transitive, lex_lt, lines, strip_cr, trim,
    trim_end, trim_start,
};

verus! {

// ---------------------------------------------------------------------------
// Every finite map of parameters has a key-sorted listing
// ---------------------------------------------------------------------------

/// `s` with `(k, v)` put at its place in key order (replacing the entry of key `k`).
pub open spec fn insert_sorted(s: Entries, k: Seq<char>, v: Seq<char>) -> Entries
    decreases s.len(),
{
    if s.len() == 0 {
        seq![(k, v)]
    } else if s[0].0 == k {
        seq![(k, v)] + s.drop_first()
    } else if lex_lt(k, s[0].0) {
        seq![(k, v)] + s
    } else {
        seq![s[0]] + insert_sorted(s.drop_first(), k, v)
    }
}

proof fn lemma_sorted_drop_first(s: Entries)
    requires
        keys_sorted(s),
        s.len() > 0,
    ensures
        keys_sorted(s.drop_first()),
        forall|i: int| 0 <= i < s.drop_first().len() ==> lex_lt(s[0].0, #[trigger] s.drop_first()[i].0),
{
    let t = s.drop_first();
    assert forall|a: int, b: int| 0 <= a < b < t.len() implies lex_lt(t[a].0, t[b].0) by {
        assert(t[a] == s[a + 1] && t[b] == s[b + 1]);
    }
    assert forall|i: int| 0 <= i < t.len() implies lex_lt(s[0].0, #[trigger] t[i].0) by {
        assert(t[i] == s[i + 1]);
    }
}

#[verifier::spinoff_prover]
#[verifier::rlimit(40)]
pub proof fn lemma_insert_sorted(s: Entries, k: Seq<char>, v: Seq<char>)
    requires
        keys_sorted(s),
    ensures
        keys_sorted(insert_sorted(s, k, v)),
        forall|x: Seq<char>, y: Seq<char>|
            #![trigger insert_sorted(s, k, v).contains((x, y))]
            insert_sorted(s, k, v).contains((x, y)) <==> ((x == k && y == v) || (s.contains((x, y))
                && x != k)),
        forall|i: int|
            0 <= i < insert_sorted(s, k, v).len() ==> (#[trigger] insert_sorted(s, k, v)[i].0 == k
                || exists|j: int| 0 <= j < s.len() && s[j].0 == insert_sorted(s, k, v)[i].0),
    decreases s.len(),
{
    let r = insert_sorted(s, k, v);
    if s.len() == 0 {
        assert forall|x: Seq<char>, y: Seq<char>| r.contains((x, y)) <==> ((x == k && y == v) || (
        s.contains((x, y)) && x != k)) by {
            if r.contains((x, y)) {
                let i = choose|i: int| 0 <= i < r.len() && r[i] == (x, y);
            }
            if x == k && y == v {
                assert(r[0] == (x, y));
            }
        }
    } else {
        lemma_sorted_drop_first(s);
        let t = s.drop_first();
        if s[0].0 == k {
            assert(keys_sorted(r)) by {
                assert forall|a: int, b: int| 0 <= a < b < r.len() implies lex_lt(r[a].0, r[b].0) by {
                    if a == 0 {
                        assert(r[b] == t[b - 1]);
                    } else {
                        assert(r[a] == t[a - 1] && r[b] == t[b - 1]);
                    }
                }
            }
            assert forall|x: Seq<char>, y: Seq<char>| r.contains((x, y)) <==> ((x == k && y == v) || (
            s.contains((x, y)) && x != k)) by {
                if r.contains((x, y)) {
                    let i = choose|i: int| 0 <= i < r.len() && r[i] == (x, y);
                    if i > 0 {
                        assert(r[i] == s[i]);
                        assert(lex_lt(s[0].0, s[i].0));
                        lemma_lex_irreflexive(k);
                    }
                }
                if x == k && y == v {
                    assert(r[0] == (x, y));
                }
                if s.contains((x, y)) && x != k {
                    let i = choose|i: int| 0 <= i < s.len() && s[i] == (x, y);
                    assert(i > 0);
                    assert(r[i] == s[i]);
                }
            }
            assert forall|i: int| 0 <= i < r.len() implies (#[trigger] r[i].0 == k || exists|j: int|
                0 <= j < s.len() && s[j].0 == r[i].0) by {
                if i > 0 {
                    assert(r[i] == s[i]);
                }
            }
        } else if lex_lt(k, s[0].0) {
            assert(keys_sorted(r)) by {
                assert forall|a: int, b: int| 0 <= a < b < r.len() implies lex_lt(r[a].0, r[b].0) by {
                    if a == 0 {
                        assert(r[b] == s[b - 1]);
                        if b - 1 > 0 {
                            lemma_lex_transitive(k, s[0].0, s[b - 1].0);
                        }
                    } else {
                        assert(r[a] == s[a - 1] && r[b] == s[b - 1]);
                    }
                }
            }
            assert forall|x: Seq<char>, y: Seq<char>| r.contains((x, y)) <==> ((x == k && y == v) || (
            s.contains((x, y)) && x != k)) by {
                if r.contains((x, y)) {
                    let i = choose|i: int| 0 <= i < r.len() && r[i] == (x, y);
                    if i > 0 {
                        assert(r[i] == s[i - 1]);
                        if i - 1 > 0 {
                            lemma_lex_transitive(k, s[0].0, s[i - 1].0);
                        }
                        lemma_lex_asymmetric(k, s[i - 1].0);
                    }
                }
                if x == k && y == v {
                    assert(r[0] == (x, y));
                }
                if s.contains((x, y)) && x != k {
                    let i = choose|i: int| 0 <= i < s.len() && s[i] == (x, y);
                    assert(r[i + 1] == s[i]);
                }
            }
            assert forall|i: int| 0 <= i < r.len() implies (#[trigger] r[i].0 == k || exists|j: int|
                0 <= j < s.len() && s[j].0 == r[i].0) by {
                if i > 0 {
                    assert(r[i] == s[i - 1]);
                }
            }
        } else {
            lemma_insert_sorted(t, k, v);
            let rt = insert_sorted(t, k, v);
            assert(r == seq![s[0]] + rt);
            lemma_lex_total(k, s[0].0);
            assert(keys_sorted(r)) by {
                assert forall|a: int, b: int| 0 <= a < b < r.len() implies lex_lt(r[a].0, r[b].0) by {
                    if a == 0 {
                        assert(r[b] == rt[b - 1]);
                        if rt[b - 1].0 != k {
                            let j = choose|j: int| 0 <= j < t.len() && t[j].0 == rt[b - 1].0;
                            assert(lex_lt(s[0].0, t[j].0));
                        }
                    } else {
                        assert(r[a] == rt[a - 1] && r[b] == rt[b - 1]);
                    }
                }
            }
            assert forall|x: Seq<char>, y: Seq<char>| r.contains((x, y)) <==> ((x == k && y == v) || (
            s.contains((x, y)) && x != k)) by {
                if r.contains((x, y)) {
                    let i = choose|i: int| 0 <= i < r.len() && r[i] == (x, y);
                    if i > 0 {
                        assert(rt[i - 1] == (x, y));
                        assert(rt.contains((x, y)));
                        if t.contains((x, y)) {
                            let j = choose|j: int| 0 <= j < t.len() && t[j] == (x, y);
                            assert(s[j + 1] == (x, y));
                        }
                    } else {
                        assert(s[0] == (x, y));
                    }
                }
                if x == k && y == v {
                    assert(rt.contains((x, y)));
                    let i = choose|i: int| 0 <= i < rt.len() && rt[i] == (x, y);
                    assert(r[i + 1] == (x, y));
                }
                if s.contains((x, y)) && x != k {
                    let i = choose|i: int| 0 <= i < s.len() && s[i] == (x, y);
                    if i == 0 {
                        assert(r[0] == (x, y));
                    } else {
                        assert(t[i - 1] == (x, y));
                        assert(rt.contains((x, y)));
                        let j = choose|j: int| 0 <= j < rt.len() && rt[j] == (x, y);
                        assert(r[j + 1] == (x, y));
                    }
                }
            }
            assert forall|i: int| 0 <= i < r.len() implies (#[trigger] r[i].0 == k || exists|j: int|
                0 <= j < s.len() && s[j].0 == r[i].0) by {
                if i > 0 {
                    assert(r[i] == rt[i - 1]);
                    if rt[i - 1].0 != k {
                        let j = choose|j: int| 0 <= j < t.len() && t[j].0 == rt[i - 1].0;
                        assert(s[j + 1] == t[j]);
                    }
                } else {
                    assert(r[0] == s[0]);
                }
            }
        }
    }
}

/// In a key-sorted listing, a key has a value exactly when the listing holds that pair.
pub proof fn lemma_entries_map_pairs(s: Entries)
    requires
        keys_sorted(s),
    ensures
        forall|x: Seq<char>, y: Seq<char>|
            (entries_map(s).dom().contains(x) && entries_map(s)[x] == y) <==> #[trigger] s.contains(
                (x, y),
            ),
{
    lemma_entries_map_dom(s);
    assert forall|x: Seq<char>, y: Seq<char>|
        (entries_map(s).dom().contains(x) && entries_map(s)[x] == y) <==> #[trigger] s.contains(
            (x, y),
        ) by {
        if entries_map(s).dom().contains(x) {
            let i = choose|i: int| 0 <= i < s.len() && s[i].0 == x;
            lemma_entries_map_at(s, i);
            if entries_map(s)[x] == y {
                assert(s[i] == (x, y));
            }
        }
        if s.contains((x, y)) {
            let i = choose|i: int| 0 <= i < s.len() && s[i] == (x, y);
            lemma_entries_map_at(s, i);
        }
    }
}

pub proof fn lemma_insert_sorted_map(s: Entries, k: Seq<char>, v: Seq<char>)
    requires
        keys_sorted(s),
    ensures
        keys_sorted(insert_sorted(s, k, v)),
        entries_map(insert_sorted(s, k, v)) == entries_map(s).insert(k, v),
{
    lemma_insert_sorted(s, k, v);
    let r = insert_sorted(s, k, v);
    lemma_entries_map_pairs(s);
    lemma_entries_map_pairs(r);
    let a = entries_map(r);
    let b = entries_map(s).insert(k, v);
    assert forall|x: Seq<char>| #[trigger] a.dom().contains(x) <==> b.dom().contains(x) by {
        if a.dom().contains(x) {
            assert(r.contains((x, a[x])));
        }
        if b.dom().contains(x) {
            if x == k {
                assert(r.contains((k, v)));
            } else {
                assert(s.contains((x, entries_map(s)[x])));
                assert(r.contains((x, entries_map(s)[x])));
            }
        }
    }
    assert forall|x: Seq<char>| #[trigger] a.dom().contains(x) implies a[x] == b[x] by {
        assert(r.contains((x, a[x])));
        if x != k {
            assert(s.contains((x, a[x])));
        }
    }
    assert(a =~= b);
}

/// The maps that a key-sorted listing describes.
pub open spec fn has_sorted_listing(m: Map<Seq<char>, Seq<char>>) -> bool {
    exists|s: Entries| keys_sorted(s) && entries_map(s) == m
}

/// Every finite map of parameters has a key-sorted listing.
pub proof fn lemma_finite_map_listing(m: Map<Seq<char>, Seq<char>>)
    requires
        m.dom().finite(),
    ensures
        has_sorted_listing(m),
    decreases m.dom().len(),
{
    if m.dom().len() == 0 {
        let s: Entries = seq![];
        assert(m.dom() =~= Set::<Seq<char>>::empty());
        assert(entries_map(s) =~= m);
        assert(keys_sorted(s));
    } else {
        let k = m.dom().choose();
        let m2 = m.remove(k);
        lemma_finite_map_listing(m2);
        let s2 = choose|s: Entries| keys_sorted(s) && entries_map(s) == m2;
        lemma_insert_sorted_map(s2, k, m[k]);
        assert(m2.insert(k, m[k]) =~= m);
        let s = insert_sorted(s2, k, m[k]);
        assert(keys_sorted(s) && entries_map(s) == m);
    }
}


// ---------------------------------------------------------------------------
// Text facts: trimming, joining and splitting lines
// ---------------------------------------------------------------------------

pub open spec fn no_newline(s: Seq<char>) -> bool {
    forall|i: int| 0 <= i < s.len() ==> s[i] != '\n'
}

proof fn lemma_trim_start_len(s: Seq<char>)
    ensures
        trim_start(s).len() <= s.len(),
        s.len() > 0 && is_ws(s[0]) ==> trim_start(s).len() < s.len(),
    decreases s.len(),
{
    if s.len() > 0 && is_ws(s[0]) {
        lemma_trim_start_len(s.drop_first());
    }
}

proof fn lemma_trim_end_len(s: Seq<char>)
    ensures
        trim_end(s).len() <= s.len(),
        s.len() > 0 && is_ws(s.last()) ==> trim_end(s).len() < s.len(),
    decreases s.len(),
{
    if s.len() > 0 && is_ws(s.last()) {
        lemma_trim_end_len(s.drop_last());
    }
}

/// A trimmed non-empty text begins and ends with a non-whitespace character.
proof fn lemma_trimmed_ends(k: Seq<char>)
    requires
        trim(k) == k,
        k.len() > 0,
    ensures
        !is_ws(k[0]),
        !is_ws(k.last()),
{
    lemma_trim_start_len(k);
    lemma_trim_end_len(trim_start(k));
    if is_ws(k[0]) {
        assert(false);
    }
    assert(trim_start(k) == k);
    if is_ws(k.last()) {
        assert(false);
    }
}

/// Text that starts and ends with a non-whitespace character is its own trim.
proof fn lemma_trim_fixed(s: Seq<char>)
    requires
        s.len() > 0,
        !is_ws(s[0]),
        !is_ws(s.last()),
    ensures
        trim(s) == s,
{
}

proof fn lemma_trim_ws_then(c: char, s: Seq<char>)
    requires
        is_ws(c),
    ensures
        trim_start(seq![c] + s) == trim_start(s),
        trim(seq![c] + s) == trim(s),
{
    assert((seq![c] + s).drop_first() =~= s);
}

proof fn lemma_trim_end_then_ws(s: Seq<char>, c: char)
    requires
        is_ws(c),
    ensures
        trim_end(s + seq![c]) == trim_end(s),
{
    assert((s + seq![c]).drop_last() =~= s);
}

/// `join` seen from the front.
pub proof fn lemma_join_front(ls: Seq<Seq<char>>, sep: Seq<char>)
    requires
        ls.len() >= 2,
    ensures
        join(ls, sep) == ls[0] + sep + join(ls.drop_first(), sep),
    decreases ls.len(),
{
    if ls.len() == 2 {
        assert(ls.drop_last() =~= seq![ls[0]]);
        assert(ls.drop_first() =~= seq![ls[1]]);
        assert(join(ls.drop_last(), sep) == ls[0]);
        assert(join(ls.drop_first(), sep) == ls[1]);
        assert(join(ls, sep) == ls[0] + sep + ls[1]);
    } else {
        let p = ls.drop_last();
        let t = ls.drop_first();
        lemma_join_front(p, sep);
        assert(p.drop_first() =~= t.drop_last());
        assert(t.last() == ls.last());
        assert(p[0] == ls[0]);
        assert(join(ls, sep) == join(p, sep) + sep + ls.last());
        assert(join(t, sep) == join(t.drop_last(), sep) + sep + t.last());
        assert(join(ls, sep) =~= ls[0] + sep + join(t, sep));
    }
}

/// `join` of two non-empty lists: the joins of both, with the separator between them.
pub proof fn lemma_join_append(a: Seq<Seq<char>>, b: Seq<Seq<char>>, sep: Seq<char>)
    requires
        a.len() > 0,
        b.len() > 0,
    ensures
        join(a + b, sep) == join(a, sep) + sep + join(b, sep),
    decreases b.len(),
{
    let ab = a + b;
    assert(ab.drop_last() =~= a + b.drop_last());
    assert(ab.last() == b.last());
    if b.len() == 1 {
        assert(a + b.drop_last() =~= a);
        assert(join(b, sep) == b[0]);
    } else {
        lemma_join_append(a, b.drop_last(), sep);
        assert(join(ab, sep) =~= join(a, sep) + sep + (join(b.drop_last(), sep) + sep + b.last()));
    }
}

proof fn lemma_lines_cons(a: Seq<char>, rest: Seq<char>)
    requires
        no_newline(a),
    ensures
        lines(a + "\n"@ + rest) == seq![strip_cr(a)] + lines(rest),
{
    reveal_strlit("\n");
    let s = a + "\n"@ + rest;
    assert forall|k: int| 0 <= k < a.len() implies s[k] != '\n' by {
        assert(s[k] == a[k]);
    }
    assert(s[a.len() as int] == '\n');
    lemma_index_of_char_unique(s, '\n', a.len() as int);
    assert(s.subrange(0, a.len() as int) =~= a);
    assert(s.subrange(a.len() as int + 1, s.len() as int) =~= rest);
}

proof fn lemma_lines_single(a: Seq<char>)
    requires
        no_newline(a),
    ensures
        lines(a) == (if a.len() == 0 {
            Seq::<Seq<char>>::empty()
        } else {
            seq![a]
        }),
{
    if a.len() > 0 {
        lemma_index_of_char_unique(a, '\n', a.len() as int);
    }
}

/// Lines without line breaks (and not ending in `'\r'`), joined by `'\n'`, split back into the
/// same lines, but for an empty last line.
pub proof fn lemma_lines_of_join(ls: Seq<Seq<char>>)
    requires
        forall|i: int| 0 <= i < ls.len() ==> no_newline(#[trigger] ls[i]),
        forall|i: int| 0 <= i < ls.len() && ls[i].len() > 0 ==> #[trigger] ls[i].last() != '\r',
    ensures
        lines(join(ls, "\n"@)) == (if ls.len() > 0 && ls.last().len() == 0 {
            ls.drop_last()
        } else {
            ls
        }),
    decreases ls.len(),
{
    if ls.len() == 0 {
    } else if ls.len() == 1 {
        lemma_lines_single(ls[0]);
        if ls[0].len() == 0 {
            assert(ls.drop_last() =~= Seq::<Seq<char>>::empty());
        } else {
            assert(ls =~= seq![ls[0]]);
        }
    } else {
        lemma_join_front(ls, "\n"@);
        let t = ls.drop_first();
        assert forall|i: int| 0 <= i < t.len() implies no_newline(#[trigger] t[i]) by {
            assert(t[i] == ls[i + 1]);
        }
        assert forall|i: int| 0 <= i < t.len() && t[i].len() > 0 implies #[trigger] t[i].last()
            != '\r' by {
            assert(t[i] == ls[i + 1]);
        }
        lemma_lines_of_join(t);
        assert(no_newline(ls[0]));
        lemma_lines_cons(ls[0], join(t, "\n"@));
        assert(strip_cr(ls[0]) == ls[0]);
        if ls.last().len() == 0 {
            assert(seq![ls[0]] + t.drop_last() =~= ls.drop_last());
        } else {
            assert(seq![ls[0]] + t =~= ls);
        }
    }
}


// ---------------------------------------------------------------------------
// Writing `config.ini` text and reading it back
// ---------------------------------------------------------------------------

/// A parameter that its `key = value` line gives back as written: neither part holds a line
/// break, both are trimmed, the key holds no `=`, and the line reads neither as a comment nor
/// as a section header.
pub open spec fn writable_param(k: Seq<char>, v: Seq<char>) -> bool {
    &&& no_newline(k)
    &&& no_newline(v)
    &&& trim(k) == k
    &&& trim(v) == v
    &&& forall|i: int| 0 <= i < k.len() ==> k[i] != '='
    &&& k.len() > 0 ==> k[0] != '#' && k[0] != ';' && !(k[0] == '[' && v.len() > 0 && v.last()
        == ']')
}

/// A section that its lines give back as written: a name without line breaks, and finitely
/// many parameters, each writable.
pub open spec fn writable_section(sec: SectionView) -> bool {
    &&& sec.0.len() > 0
    &&& no_newline(sec.0)
    &&& sec.1.dom().finite()
    &&& forall|k: Seq<char>| #[trigger] sec.1.dom().contains(k) ==> writable_param(k, sec.1[k])
}

/// The scan of `ls`, started from `st`.
pub open spec fn scan_from(st: ScanState, ls: Seq<Seq<char>>) -> ScanState
    decreases ls.len(),
{
    if ls.len() == 0 {
        st
    } else {
        scan_line(scan_from(st, ls.drop_last()), ls.last())
    }
}

proof fn lemma_scan_lines_from(ls: Seq<Seq<char>>)
    ensures
        scan_lines(ls) == scan_from(scan_start(), ls),
    decreases ls.len(),
{
    if ls.len() > 0 {
        lemma_scan_lines_from(ls.drop_last());
    }
}

proof fn lemma_scan_from_append(st: ScanState, a: Seq<Seq<char>>, b: Seq<Seq<char>>)
    ensures
        scan_from(st, a + b) == scan_from(scan_from(st, a), b),
    decreases b.len(),
{
    if b.len() == 0 {
        assert(a + b =~= a);
    } else {
        lemma_scan_from_append(st, a, b.drop_last());
        assert((a + b).drop_last() =~= a + b.drop_last());
        assert((a + b).last() == b.last());
    }
}

proof fn lemma_scan_one(st: ScanState, l: Seq<char>)
    ensures
        scan_from(st, seq![l]) == scan_line(st, l),
{
    assert(seq![l].drop_last() =~= Seq::<Seq<char>>::empty());
    assert(scan_from(st, Seq::<Seq<char>>::empty()) == st);
}

proof fn lemma_scan_header(st: ScanState, name: Seq<char>)
    ensures
        scan_line(st, "["@ + name + "]"@) == (if st.name.len() > 0 {
            ScanState {
                sections: st.sections.push((st.name, st.params)),
                name: name,
                params: Map::empty(),
            }
        } else {
            ScanState { sections: st.sections, name: name, params: st.params }
        }),
{
    reveal_strlit("[");
    reveal_strlit("]");
    let h = "["@ + name + "]"@;
    assert(h[0] == '[');
    assert(h.last() == ']');
    lemma_trim_fixed(h);
    assert(h.subrange(1, h.len() - 1) =~= name);
}

proof fn lemma_trim_key(k: Seq<char>)
    requires
        trim(k) == k,
        k.len() > 0,
    ensures
        trim(k + seq![' ']) == k,
{
    lemma_trimmed_ends(k);
    let kp = k + seq![' '];
    assert(kp[0] == k[0]);
    lemma_trim_end_then_ws(k, ' ');
}

proof fn lemma_trim_value(v: Seq<char>)
    requires
        trim(v) == v,
        v.len() > 0,
    ensures
        trim(seq![' '] + v) == v,
{
    lemma_trim_ws_then(' ', v);
}

proof fn lemma_scan_param(st: ScanState, k: Seq<char>, v: Seq<char>)
    requires
        writable_param(k, v),
    ensures
        scan_line(st, param_line((k, v))) == (ScanState {
            sections: st.sections,
            name: st.name,
            params: st.params.insert(k, v),
        }),
{
    reveal_strlit(" = ");
    let line = param_line((k, v));
    let kp = if k.len() > 0 {
        k + seq![' ']
    } else {
        Seq::<char>::empty()
    };
    let vp = if v.len() > 0 {
        seq![' '] + v
    } else {
        Seq::<char>::empty()
    };
    let ts = kp + seq!['='] + seq![' '] + v;
    let l = kp + seq!['='] + vp;
    if k.len() > 0 {
        lemma_trimmed_ends(k);
        assert(line =~= ts);
        assert(ts[0] == k[0]);
        assert(trim_start(line) == ts);
    } else {
        assert(line =~= seq![' '] + ts);
        lemma_trim_ws_then(' ', ts);
        assert(ts[0] == '=');
        assert(trim_start(line) == ts);
    }
    if v.len() > 0 {
        lemma_trimmed_ends(v);
        assert(ts =~= l);
        assert(l.last() == v.last());
        assert(trim_end(ts) == l);
    } else {
        assert(ts =~= (kp + seq!['=']) + seq![' ']);
        lemma_trim_end_then_ws(kp + seq!['='], ' ');
        assert((kp + seq!['=']).last() == '=');
        assert(l =~= kp + seq!['=']);
        assert(trim_end(ts) == l);
    }
    assert(trim(line) == l);
    let e = kp.len() as int;
    assert(l[e] == '=');
    assert forall|j: int| 0 <= j < e implies l[j] != '=' by {
        assert(l[j] == kp[j]);
        if j < k.len() {
            assert(kp[j] == k[j]);
        }
    }
    lemma_index_of_char_unique(l, '=', e);
    assert(l.subrange(0, e) =~= kp);
    assert(l.subrange(e + 1, l.len() as int) =~= vp);
    if k.len() > 0 {
        lemma_trim_key(k);
        assert(l[0] == k[0]);
    } else {
        assert(l[0] == '=');
    }
    if v.len() > 0 {
        lemma_trim_value(v);
        assert(l.last() == v.last());
    } else {
        assert(l.last() == '=');
    }
    assert(trim(l.subrange(0, e)) == k);
    assert(trim(l.subrange(e + 1, l.len() as int)) == v);
    assert(l.len() > 0);
    assert(l[0] != '#' && l[0] != ';');
    assert(!(l[0] == '[' && l.last() == ']'));
    assert(index_of_char(l, '=') < l.len());
}

proof fn lemma_scan_params(st: ScanState, es: Entries, ls: Seq<Seq<char>>)
    requires
        st.params == Map::<Seq<char>, Seq<char>>::empty(),
        ls.len() == es.len(),
        forall|i: int| 0 <= i < es.len() ==> #[trigger] ls[i] == param_line(es[i]),
        forall|i: int| 0 <= i < es.len() ==> writable_param(#[trigger] es[i].0, es[i].1),
    ensures
        scan_from(st, ls) == (ScanState {
            sections: st.sections,
            name: st.name,
            params: entries_map(es),
        }),
    decreases es.len(),
{
    if es.len() > 0 {
        lemma_scan_params(st, es.drop_last(), ls.drop_last());
        let last = es.last();
        assert(ls.last() == param_line(last));
        assert(writable_param(es[es.len() - 1].0, es[es.len() - 1].1));
        lemma_scan_param(scan_from(st, ls.drop_last()), last.0, last.1);
    }
}

proof fn lemma_sorted_entries_writable(sec: SectionView)
    requires
        writable_section(sec),
    ensures
        keys_sorted(sorted_entries(sec.1)),
        entries_map(sorted_entries(sec.1)) == sec.1,
        forall|i: int|
            0 <= i < sorted_entries(sec.1).len() ==> writable_param(
                #[trigger] sorted_entries(sec.1)[i].0,
                sorted_entries(sec.1)[i].1,
            ),
{
    lemma_finite_map_listing(sec.1);
    let es = sorted_entries(sec.1);
    lemma_entries_map_pairs(es);
    assert forall|i: int| 0 <= i < es.len() implies writable_param(#[trigger] es[i].0, es[i].1) by {
        assert(es.contains((es[i].0, es[i].1)));
    }
}

proof fn lemma_scan_section(st: ScanState, sec: SectionView)
    requires
        writable_section(sec),
        st.name.len() > 0 || st.params == Map::<Seq<char>, Seq<char>>::empty(),
    ensures
        scan_from(st, section_lines(sec)) == (ScanState {
            sections: if st.name.len() > 0 {
                st.sections.push((st.name, st.params))
            } else {
                st.sections
            },
            name: sec.0,
            params: sec.1,
        }),
{
    let h = "["@ + sec.0 + "]"@;
    let es = sorted_entries(sec.1);
    let mid = es.map_values(|e: (Seq<char>, Seq<char>)| param_line(e));
    let tail = seq![Seq::<char>::empty()];
    assert(section_lines(sec) == seq![h] + mid + tail);
    lemma_scan_from_append(st, seq![h] + mid, tail);
    lemma_scan_from_append(st, seq![h], mid);
    lemma_scan_one(st, h);
    lemma_scan_header(st, sec.0);
    let s1 = scan_from(st, seq![h]);
    lemma_sorted_entries_writable(sec);
    lemma_scan_params(s1, es, mid);
    let s2 = scan_from(s1, mid);
    lemma_scan_one(s2, Seq::<char>::empty());
}

proof fn lemma_scan_ini_lines(secs: Seq<SectionView>, with_version: bool)
    requires
        forall|i: int| 0 <= i < secs.len() ==> writable_section(#[trigger] secs[i]),
    ensures
        scan_from(scan_start(), ini_lines(secs, with_version)) == (if secs.len() == 0 {
            scan_start()
        } else {
            ScanState { sections: secs.drop_last(), name: secs.last().0, params: secs.last().1 }
        }),
    decreases secs.len(),
{
    if secs.len() == 0 {
        if with_version {
            reveal_strlit("# version = 1");
            let c = "# version = 1"@;
            lemma_trim_fixed(c);
            let ls = seq![c, Seq::<char>::empty()];
            assert(ls == seq![c] + seq![Seq::<char>::empty()]);
            lemma_scan_from_append(scan_start(), seq![c], seq![Seq::<char>::empty()]);
            lemma_scan_one(scan_start(), c);
            assert(c[0] == '#');
            assert(trim(c) == c);
            assert(scan_line(scan_start(), c) == scan_start());
            lemma_scan_one(scan_start(), Seq::<char>::empty());
            assert(scan_from(scan_start(), ls) == scan_start());
        } else {
            assert(ini_lines(secs, with_version) =~= Seq::<Seq<char>>::empty());
        }
    } else {
        let p = secs.drop_last();
        assert forall|i: int| 0 <= i < p.len() implies writable_section(#[trigger] p[i]) by {
            assert(p[i] == secs[i]);
        }
        lemma_scan_ini_lines(p, with_version);
        lemma_scan_from_append(scan_start(), ini_lines(p, with_version), section_lines(secs.last()));
        assert(writable_section(secs[secs.len() - 1]));
        if p.len() > 0 {
            assert(writable_section(p[p.len() - 1]));
            assert(p.drop_last().push(p.last()) =~= p);
        }
        let st = scan_from(scan_start(), ini_lines(p, with_version));
        assert(st.name.len() > 0 || st.params == Map::<Seq<char>, Seq<char>>::empty());
        lemma_scan_section(st, secs.last());
        assert(ini_lines(secs, with_version) == ini_lines(p, with_version) + section_lines(
            secs.last(),
        ));
        if p.len() == 0 {
            assert(st == scan_start());
            assert(p =~= Seq::<SectionView>::empty());
        } else {
            assert(st.sections.push((st.name, st.params)) == p);
        }
    }
}

proof fn lemma_section_lines_clean(sec: SectionView)
    requires
        writable_section(sec),
    ensures
        forall|i: int|
            0 <= i < section_lines(sec).len() ==> no_newline(#[trigger] section_lines(sec)[i]),
        forall|i: int|
            0 <= i < section_lines(sec).len() && section_lines(sec)[i].len() > 0
                ==> #[trigger] section_lines(sec)[i].last() != '\r',
        section_lines(sec).last().len() == 0,
{
    reveal_strlit("[");
    reveal_strlit("]");
    reveal_strlit(" = ");
    let sl = section_lines(sec);
    let h = "["@ + sec.0 + "]"@;
    let es = sorted_entries(sec.1);
    lemma_sorted_entries_writable(sec);
    assert forall|i: int| 0 <= i < sl.len() implies no_newline(#[trigger] sl[i]) && (sl[i].len()
        > 0 ==> sl[i].last() != '\r') by {
        if i == 0 {
            assert(sl[0] == h);
            assert forall|j: int| 0 <= j < h.len() implies h[j] != '\n' by {
                if 0 < j < h.len() - 1 {
                    assert(h[j] == sec.0[j - 1]);
                }
            }
        } else if i < sl.len() - 1 {
            let e = es[i - 1];
            assert(writable_param(es[i - 1].0, es[i - 1].1));
            let pl = param_line(e);
            assert(sl[i] == pl);
            assert forall|j: int| 0 <= j < pl.len() implies pl[j] != '\n' by {
                if j < e.0.len() {
                    assert(pl[j] == e.0[j]);
                } else if j >= e.0.len() + 3 {
                    assert(pl[j] == e.1[j - e.0.len() - 3]);
                }
            }
            if e.1.len() > 0 {
                lemma_trimmed_ends(e.1);
                assert(pl.last() == e.1.last());
            } else {
                assert(pl.last() == ' ');
            }
        }
    }
}

proof fn lemma_ini_lines_clean(secs: Seq<SectionView>, with_version: bool)
    requires
        forall|i: int| 0 <= i < secs.len() ==> writable_section(#[trigger] secs[i]),
    ensures
        forall|i: int|
            0 <= i < ini_lines(secs, with_version).len() ==> no_newline(
                #[trigger] ini_lines(secs, with_version)[i],
            ),
        forall|i: int|
            0 <= i < ini_lines(secs, with_version).len() && ini_lines(secs, with_version)[i].len()
                > 0 ==> #[trigger] ini_lines(secs, with_version)[i].last() != '\r',
        ini_lines(secs, with_version).len() > 0 ==> ini_lines(secs, with_version).last().len()
            == 0,
        ini_lines(secs, with_version).len() == 0 ==> secs.len() == 0,
    decreases secs.len(),
{
    let ls = ini_lines(secs, with_version);
    if secs.len() == 0 {
        if with_version {
            reveal_strlit("# version = 1");
            let c = "# version = 1"@;
            assert(ls[0] == c);
            assert(c.last() == '1');
        }
    } else {
        let p = secs.drop_last();
        assert forall|i: int| 0 <= i < p.len() implies writable_section(#[trigger] p[i]) by {
            assert(p[i] == secs[i]);
        }
        lemma_ini_lines_clean(p, with_version);
        assert(writable_section(secs[secs.len() - 1]));
        lemma_section_lines_clean(secs.last());
        let a = ini_lines(p, with_version);
        let b = section_lines(secs.last());
        assert(ls == a + b);
        assert forall|i: int| 0 <= i < ls.len() implies no_newline(#[trigger] ls[i]) && (ls[i].len()
            > 0 ==> ls[i].last() != '\r') by {
            if i < a.len() {
                assert(ls[i] == a[i]);
            } else {
                assert(ls[i] == b[i - a.len()]);
            }
        }
    }
}

/// Sections written as `config.ini` text (with or without the version line) read back as the
/// same sections, in the same order, when each has a name and writable parameters.
pub proof fn law_ini_round_trip(secs: Seq<SectionView>, with_version: bool)
    requires
        forall|i: int| 0 <= i < secs.len() ==> writable_section(#[trigger] secs[i]),
    ensures
        ini_sections(ini_text(secs, with_version)) == secs,
{
    let ls = ini_lines(secs, with_version);
    lemma_ini_lines_clean(secs, with_version);
    lemma_lines_of_join(ls);
    lemma_scan_lines_from(lines(ini_text(secs, with_version)));
    lemma_scan_ini_lines(secs, with_version);
    if ls.len() > 0 {
        assert(ls =~= ls.drop_last() + seq![ls.last()]);
        lemma_scan_from_append(scan_start(), ls.drop_last(), seq![ls.last()]);
        lemma_scan_one(scan_from(scan_start(), ls.drop_last()), ls.last());
        assert(ls.last() =~= Seq::<char>::empty());
    }
    if secs.len() > 0 {
        assert(secs.drop_last().push(secs.last()) =~= secs);
    }
}


// ---------------------------------------------------------------------------
// What reading `config.ini` gives can be written back
// ---------------------------------------------------------------------------

proof fn lemma_trim_start_suffix(s: Seq<char>)
    ensures
        trim_start(s).len() <= s.len(),
        trim_start(s) == s.subrange(s.len() - trim_start(s).len(), s.len() as int),
        trim_start(s).len() > 0 ==> !is_ws(trim_start(s)[0]),
        s.len() > 0 && !is_ws(s[0]) ==> trim_start(s) == s,
        s.len() > 0 && !is_ws(s.last()) ==> trim_start(s).len() > 0,
    decreases s.len(),
{
    if s.len() > 0 && is_ws(s[0]) {
        lemma_trim_start_suffix(s.drop_first());
        let t = trim_start(s.drop_first());
        assert(s.drop_first().subrange(s.drop_first().len() - t.len(), s.drop_first().len() as int)
            =~= s.subrange(s.len() - t.len(), s.len() as int));
        if s.len() > 0 && !is_ws(s.last()) {
            assert(s.drop_first().last() == s.last());
        }
    } else {
        assert(s.subrange(0, s.len() as int) =~= s);
    }
}

proof fn lemma_trim_end_prefix(s: Seq<char>)
    ensures
        trim_end(s).len() <= s.len(),
        trim_end(s) == s.subrange(0, trim_end(s).len() as int),
        trim_end(s).len() > 0 ==> !is_ws(trim_end(s).last()),
        s.len() > 0 && !is_ws(s.last()) ==> trim_end(s) == s,
        s.len() > 0 && !is_ws(s[0]) ==> trim_end(s).len() > 0,
    decreases s.len(),
{
    if s.len() > 0 && is_ws(s.last()) {
        lemma_trim_end_prefix(s.drop_last());
        let t = trim_end(s.drop_last());
        assert(s.drop_last().subrange(0, t.len() as int) =~= s.subrange(0, t.len() as int));
        if s.len() > 0 && !is_ws(s[0]) {
            assert(s.len() > 1);
            assert(s.drop_last()[0] == s[0]);
        }
    } else {
        assert(s.subrange(0, s.len() as int) =~= s);
    }
}

/// `trim(s)` is a stretch of `s` that begins and ends with non-whitespace; it keeps a
/// non-whitespace first or last character of `s`; trimming again changes nothing.
proof fn lemma_trim_props(s: Seq<char>)
    ensures
        trim(s).len() <= trim_start(s).len() <= s.len(),
        trim(s) == s.subrange(
            s.len() - trim_start(s).len(),
            s.len() - trim_start(s).len() + trim(s).len(),
        ),
        trim(s).len() > 0 ==> !is_ws(trim(s)[0]) && !is_ws(trim(s).last()),
        trim(trim(s)) == trim(s),
        s.len() > 0 && !is_ws(s[0]) ==> trim(s).len() > 0 && trim(s)[0] == s[0],
        s.len() > 0 && !is_ws(s.last()) ==> trim(s).len() > 0 && trim(s).last() == s.last(),
{
    lemma_trim_start_suffix(s);
    let ts = trim_start(s);
    lemma_trim_end_prefix(ts);
    let t = trim_end(ts);
    let a = s.len() - ts.len();
    assert(t =~= s.subrange(a, a + t.len()));
    if t.len() > 0 {
        assert(t[0] == ts[0]);
        lemma_trim_fixed(t);
    }
    if s.len() > 0 && !is_ws(s.last()) {
        assert(ts.last() == s.last());
        assert(t == ts);
    }
}

proof fn lemma_subrange_no_newline(s: Seq<char>, a: int, b: int)
    requires
        no_newline(s),
        0 <= a <= b <= s.len(),
    ensures
        no_newline(s.subrange(a, b)),
{
    assert forall|i: int| 0 <= i < b - a implies s.subrange(a, b)[i] != '\n' by {
        assert(s.subrange(a, b)[i] == s[a + i]);
    }
}

proof fn lemma_trim_no_newline(s: Seq<char>)
    requires
        no_newline(s),
    ensures
        no_newline(trim(s)),
{
    lemma_trim_props(s);
    lemma_subrange_no_newline(
        s,
        s.len() - trim_start(s).len(),
        s.len() - trim_start(s).len() + trim(s).len(),
    );
}

/// The lines of a text hold no line break.
pub proof fn lemma_lines_no_newline(s: Seq<char>)
    ensures
        forall|i: int| 0 <= i < lines(s).len() ==> no_newline(#[trigger] lines(s)[i]),
    decreases s.len(),
{
    if s.len() > 0 {
        lemma_index_of_char(s, '\n');
        let k = index_of_char(s, '\n') as int;
        if k == s.len() {
            assert(lines(s) == seq![s]);
        } else {
            let rest = s.subrange(k + 1, s.len() as int);
            lemma_lines_no_newline(rest);
            let first = s.subrange(0, k);
            assert(no_newline(first));
            let f = strip_cr(first);
            if first.len() > 0 && first.last() == '\r' {
                lemma_subrange_no_newline(first, 0, first.len() - 1);
                assert(f =~= first.subrange(0, first.len() - 1));
            }
            assert(lines(s) == seq![f] + lines(rest));
            assert forall|i: int| 0 <= i < lines(s).len() implies no_newline(#[trigger] lines(s)[i]) by {
                if i > 0 {
                    assert(lines(s)[i] == lines(rest)[i - 1]);
                }
            }
        }
    }
}

/// A scan state whose closed sections, open name and parameters can all be written back.
pub open spec fn scan_writable(st: ScanState) -> bool {
    &&& forall|i: int| 0 <= i < st.sections.len() ==> writable_section(#[trigger] st.sections[i])
    &&& no_newline(st.name)
    &&& st.params.dom().finite()
    &&& forall|k: Seq<char>| #[trigger] st.params.dom().contains(k) ==> writable_param(k, st.params[k])
}

proof fn lemma_key_value_writable(l: Seq<char>)
    requires
        no_newline(l),
        trim(l) == l,
        l.len() > 0,
        l[0] != '#' && l[0] != ';',
        !(l[0] == '[' && l.last() == ']'),
        index_of_char(l, '=') < l.len(),
    ensures
        writable_param(
            trim(l.subrange(0, index_of_char(l, '=') as int)),
            trim(l.subrange(index_of_char(l, '=') as int + 1, l.len() as int)),
        ),
{
    lemma_index_of_char(l, '=');
    let e = index_of_char(l, '=') as int;
    let a = l.subrange(0, e);
    let b = l.subrange(e + 1, l.len() as int);
    let k = trim(a);
    let v = trim(b);
    lemma_subrange_no_newline(l, 0, e);
    lemma_subrange_no_newline(l, e + 1, l.len() as int);
    lemma_trim_no_newline(a);
    lemma_trim_no_newline(b);
    lemma_trim_props(a);
    lemma_trim_props(b);
    lemma_trim_props(l);
    let ka = a.len() - trim_start(a).len();
    assert forall|i: int| 0 <= i < k.len() implies k[i] != '=' by {
        assert(k[i] == a[ka + i]);
        assert(a[ka + i] == l[ka + i]);
    }
    if k.len() > 0 {
        assert(e > 0);
        assert(a[0] == l[0]);
        assert(k[0] == l[0]);
        if v.len() > 0 {
            assert(b.len() > 0);
            assert(b.last() == l.last());
            assert(v.last() == l.last());
        }
    }
}

proof fn lemma_scan_line_writable(st: ScanState, raw: Seq<char>)
    requires
        scan_writable(st),
        no_newline(raw),
    ensures
        scan_writable(scan_line(st, raw)),
{
    let l = trim(raw);
    lemma_trim_no_newline(raw);
    lemma_trim_props(raw);
    if l.len() == 0 || l[0] == '#' || l[0] == ';' {
    } else if l[0] == '[' && l.last() == ']' {
        lemma_subrange_no_newline(l, 1, l.len() - 1);
        let st2 = scan_line(st, raw);
        if st.name.len() > 0 {
            assert forall|i: int| 0 <= i < st2.sections.len() implies writable_section(
                #[trigger] st2.sections[i],
            ) by {
                if i < st.sections.len() {
                    assert(st2.sections[i] == st.sections[i]);
                }
            }
            assert(st2.params.dom() =~= Set::<Seq<char>>::empty());
        }
    } else if index_of_char(l, '=') < l.len() {
        lemma_key_value_writable(l);
        let e = index_of_char(l, '=') as int;
        let k = trim(l.subrange(0, e));
        let v = trim(l.subrange(e + 1, l.len() as int));
        let st2 = scan_line(st, raw);
        assert(st2.params == st.params.insert(k, v));
        assert forall|x: Seq<char>| #[trigger] st2.params.dom().contains(x) implies writable_param(
            x,
            st2.params[x],
        ) by {
            if x != k {
                assert(st.params.dom().contains(x));
            }
        }
    }
}

proof fn lemma_scan_lines_writable(ls: Seq<Seq<char>>)
    requires
        forall|i: int| 0 <= i < ls.len() ==> no_newline(#[trigger] ls[i]),
    ensures
        scan_writable(scan_lines(ls)),
    decreases ls.len(),
{
    if ls.len() == 0 {
        assert(scan_start().params.dom() =~= Set::<Seq<char>>::empty());
    } else {
        let p = ls.drop_last();
        assert forall|i: int| 0 <= i < p.len() implies no_newline(#[trigger] p[i]) by {
            assert(p[i] == ls[i]);
        }
        lemma_scan_lines_writable(p);
        assert(no_newline(ls[ls.len() - 1]));
        lemma_scan_line_writable(scan_lines(p), ls.last());
    }
}

/// Every section read from a `config.ini` text can be written back as it was read.
pub proof fn law_read_sections_writable(t: Seq<char>)
    ensures
        forall|i: int|
            0 <= i < ini_sections(t).len() ==> writable_section(#[trigger] ini_sections(t)[i]),
{
    lemma_lines_no_newline(t);
    lemma_scan_lines_writable(lines(t));
    let st = scan_lines(lines(t));
    if st.name.len() > 0 {
        let r = ini_sections(t);
        assert forall|i: int| 0 <= i < r.len() implies writable_section(#[trigger] r[i]) by {
            if i < st.sections.len() {
                assert(r[i] == st.sections[i]);
            }
        }
    }
}

/// Rewriting a `config.ini` from what was read from it keeps its sections.
pub proof fn law_rewrite_keeps_sections(t: Seq<char>, with_version: bool)
    ensures
        ini_sections(ini_text(ini_sections(t), with_version)) == ini_sections(t),
{
    law_read_sections_writable(t);
    law_ini_round_trip(ini_sections(t), with_version);
}


// ---------------------------------------------------------------------------
// The first section of a text written with the version line
// ---------------------------------------------------------------------------

proof fn lemma_ini_lines_front(secs: Seq<SectionView>)
    requires
        secs.len() > 0,
    ensures
        ini_lines(secs, true).len() >= 4,
        ini_lines(secs, true)[0] == "# version = 1"@,
        ini_lines(secs, true)[1] == Seq::<char>::empty(),
        ini_lines(secs, true)[2] == "["@ + secs[0].0 + "]"@,
    decreases secs.len(),
{
    let ls = ini_lines(secs, true);
    let p = secs.drop_last();
    let tail = section_lines(secs.last());
    assert(ls == ini_lines(p, true) + tail);
    assert(tail[0] == "["@ + secs.last().0 + "]"@);
    assert(tail.len() >= 2);
    if secs.len() == 1 {
        assert(ini_lines(p, true) == seq!["# version = 1"@, Seq::<char>::empty()]);
        assert(secs.last() == secs[0]);
    } else {
        lemma_ini_lines_front(p);
        assert(p[0] == secs[0]);
    }
}

/// A scan state whose first closed section, or else its open section, has the name `n`.
pub open spec fn first_section_is(st: ScanState, n: Seq<char>) -> bool {
    ||| st.sections.len() == 0 && st.name == n
    ||| st.sections.len() > 0 && st.sections[0].0 == n
}

proof fn lemma_scan_keeps_first(st: ScanState, ls: Seq<Seq<char>>, n: Seq<char>)
    requires
        n.len() > 0,
        first_section_is(st, n),
    ensures
        first_section_is(scan_from(st, ls), n),
    decreases ls.len(),
{
    if ls.len() > 0 {
        lemma_scan_keeps_first(st, ls.drop_last(), n);
        let s1 = scan_from(st, ls.drop_last());
        let s2 = scan_line(s1, ls.last());
        if s2.sections.len() > 0 && s1.sections.len() > 0 {
            assert(s2.sections[0] == s1.sections[0]);
        }
    }
}

/// The first three lines of a text written with the version line.
#[verifier::spinoff_prover]
proof fn lemma_versioned_lines(secs: Seq<SectionView>) -> (r: Seq<char>)
    requires
        secs.len() > 0,
        no_newline(secs[0].0),
    ensures
        lines(ini_text(secs, true)) == seq!["# version = 1"@, Seq::<char>::empty(), "["@ + secs[0].0
            + "]"@] + lines(r),
{
    reveal_strlit("# version = 1");
    reveal_strlit("[");
    reveal_strlit("]");
    reveal_strlit("\n");
    let n = secs[0].0;
    let ls = ini_lines(secs, true);
    lemma_ini_lines_front(secs);
    let l0 = ls[0];
    let l1 = ls[1];
    let l2 = ls[2];
    let ls1 = ls.drop_first();
    let ls2 = ls1.drop_first();
    let ls3 = ls2.drop_first();
    lemma_join_front(ls, "\n"@);
    lemma_join_front(ls1, "\n"@);
    lemma_join_front(ls2, "\n"@);
    let r = join(ls3, "\n"@);
    let text = ini_text(secs, true);
    assert(ls1[0] == l1 && ls2[0] == l2);
    assert(text =~= l0 + "\n"@ + (l1 + "\n"@ + (l2 + "\n"@ + r)));
    assert(no_newline(l0)) by {
        assert forall|i: int| 0 <= i < l0.len() implies l0[i] != '\n' by {}
    }
    assert(no_newline(l2)) by {
        assert forall|i: int| 0 <= i < l2.len() implies l2[i] != '\n' by {
            if 0 < i < l2.len() - 1 {
                assert(l2[i] == n[i - 1]);
            }
        }
    }
    lemma_lines_cons(l0, l1 + "\n"@ + (l2 + "\n"@ + r));
    lemma_lines_cons(l1, l2 + "\n"@ + r);
    lemma_lines_cons(l2, r);
    assert(strip_cr(l0) == l0);
    assert(strip_cr(l1) == l1);
    assert(l2.last() == ']');
    assert(strip_cr(l2) == l2);
    assert(lines(text) =~= seq![l0, l1, l2] + lines(r));
    r
}

/// The version line, an empty line and a header open the named section.
#[verifier::spinoff_prover]
proof fn lemma_scan_versioned_front(n: Seq<char>)
    ensures
        scan_from(scan_start(), seq!["# version = 1"@, Seq::<char>::empty(), "["@ + n + "]"@])
            == (ScanState { sections: seq![], name: n, params: Map::empty() }),
{
    reveal_strlit("# version = 1");
    let l0 = "# version = 1"@;
    let l1 = Seq::<char>::empty();
    let l2 = "["@ + n + "]"@;
    let front = seq![l0, l1, l2];
    assert(front == seq![l0, l1] + seq![l2]);
    assert(seq![l0, l1] == seq![l0] + seq![l1]);
    lemma_scan_from_append(scan_start(), seq![l0, l1], seq![l2]);
    lemma_scan_from_append(scan_start(), seq![l0], seq![l1]);
    lemma_scan_one(scan_start(), l0);
    lemma_trim_fixed(l0);
    assert(l0[0] == '#');
    assert(scan_line(scan_start(), l0) == scan_start());
    lemma_scan_one(scan_start(), l1);
    lemma_scan_header(scan_start(), n);
    lemma_scan_one(scan_start(), l2);
}

/// Sections written with the version line read back with the first section's name first,
/// whatever the other sections and the parameters hold, when that name is a non-empty name
/// without line breaks.
pub proof fn law_first_section_survives(secs: Seq<SectionView>)
    requires
        secs.len() > 0,
        secs[0].0.len() > 0,
        no_newline(secs[0].0),
    ensures
        ini_sections(ini_text(secs, true)).len() > 0,
        ini_sections(ini_text(secs, true))[0].0 == secs[0].0,
{
    let n = secs[0].0;
    let text = ini_text(secs, true);
    let r = lemma_versioned_lines(secs);
    let front = seq!["# version = 1"@, Seq::<char>::empty(), "["@ + n + "]"@];
    lemma_scan_lines_from(lines(text));
    lemma_scan_from_append(scan_start(), front, lines(r));
    lemma_scan_versioned_front(n);
    let s3 = scan_from(scan_start(), front);
    lemma_scan_keeps_first(s3, lines(r), n);
    let st = scan_lines(lines(text));
    assert(first_section_is(st, n));
    if st.name.len() > 0 && st.sections.len() > 0 {
        assert(st.sections.push((st.name, st.params))[0] == st.sections[0]);
    }
}

// ---------------------------------------------------------------------------
// A section added at the end is found again
// ---------------------------------------------------------------------------

/// Clean lines, joined by `'\n'` and followed by a line break and more text, split back into
/// the same lines and the lines of that text.
proof fn lemma_lines_prefix(a: Seq<Seq<char>>, y: Seq<char>)
    requires
        a.len() > 0,
        forall|i: int| 0 <= i < a.len() ==> no_newline(#[trigger] a[i]),
        forall|i: int| 0 <= i < a.len() && a[i].len() > 0 ==> #[trigger] a[i].last() != '\r',
    ensures
        lines(join(a, "\n"@) + "\n"@ + y) == a + lines(y),
    decreases a.len(),
{
    assert(no_newline(a[0]));
    if a[0].len() > 0 {
        assert(a[0].last() != '\r');
    }
    assert(strip_cr(a[0]) == a[0]);
    if a.len() == 1 {
        assert(join(a, "\n"@) == a[0]);
        lemma_lines_cons(a[0], y);
        assert(seq![a[0]] + lines(y) =~= a + lines(y));
    } else {
        let t = a.drop_first();
        assert forall|i: int| 0 <= i < t.len() implies no_newline(#[trigger] t[i]) by {
            assert(t[i] == a[i + 1]);
        }
        assert forall|i: int| 0 <= i < t.len() && t[i].len() > 0 implies #[trigger] t[i].last()
            != '\r' by {
            assert(t[i] == a[i + 1]);
        }
        lemma_lines_prefix(t, y);
        lemma_join_front(a, "\n"@);
        let rest = join(t, "\n"@) + "\n"@ + y;
        assert(join(a, "\n"@) + "\n"@ + y =~= a[0] + "\n"@ + rest);
        lemma_lines_cons(a[0], rest);
        assert(seq![a[0]] + (t + lines(y)) =~= a + lines(y));
    }
}

/// The scan state has, or is about to close, a section named `n` at position `k`.
pub open spec fn section_at_is(st: ScanState, k: int, n: Seq<char>) -> bool {
    ||| st.sections.len() == k && st.name == n
    ||| st.sections.len() > k && st.sections[k].0 == n
}

proof fn lemma_scan_keeps_section_at(st: ScanState, ls: Seq<Seq<char>>, k: int, n: Seq<char>)
    requires
        0 <= k,
        n.len() > 0,
        section_at_is(st, k, n),
    ensures
        section_at_is(scan_from(st, ls), k, n),
    decreases ls.len(),
{
    if ls.len() > 0 {
        lemma_scan_keeps_section_at(st, ls.drop_last(), k, n);
        let s1 = scan_from(st, ls.drop_last());
        let s2 = scan_line(s1, ls.last());
        if s2.sections.len() > k && s1.sections.len() > k {
            assert(s2.sections[k] == s1.sections[k]);
        }
    }
}

/// The lines of a section, as split from its text: its header first.
proof fn lemma_section_text_lines(x: SectionView) -> (rest: Seq<char>)
    requires
        no_newline(x.0),
    ensures
        join(section_lines(x), "\n"@) == "["@ + x.0 + "]"@ + "\n"@ + rest,
        lines(join(section_lines(x), "\n"@)) == seq!["["@ + x.0 + "]"@] + lines(rest),
{
    reveal_strlit("[");
    reveal_strlit("]");
    reveal_strlit("\n");
    let b = section_lines(x);
    let h = "["@ + x.0 + "]"@;
    assert(b[0] == h);
    assert(b.len() >= 2);
    lemma_join_front(b, "\n"@);
    let rest = join(b.drop_first(), "\n"@);
    assert(no_newline(h)) by {
        assert forall|i: int| 0 <= i < h.len() implies h[i] != '\n' by {
            if 0 < i < h.len() - 1 {
                assert(h[i] == x.0[i - 1]);
            }
        }
    }
    lemma_lines_cons(h, rest);
    assert(h.last() == ']');
    assert(strip_cr(h) == h);
    rest
}

/// Sections that read back as written, and one more section with a non-empty name without line
/// breaks added at the end: the text they are written as reads back with a section of that
/// name, whatever the added section's parameters hold.
pub proof fn law_added_section_found(secs: Seq<SectionView>, x: SectionView, with_version: bool)
    requires
        forall|i: int| 0 <= i < secs.len() ==> writable_section(#[trigger] secs[i]),
        x.0.len() > 0,
        no_newline(x.0),
    ensures
        exists|k: int|
            0 <= k < ini_sections(ini_text(secs.push(x), with_version)).len() && ini_sections(
                ini_text(secs.push(x), with_version),
            )[k].0 == x.0,
{
    let all = secs.push(x);
    let a = ini_lines(secs, with_version);
    let b = section_lines(x);
    assert(all.drop_last() =~= secs);
    assert(ini_lines(all, with_version) == a + b);
    let text = ini_text(all, with_version);
    let rest = lemma_section_text_lines(x);
    let h = "["@ + x.0 + "]"@;
    lemma_ini_lines_clean(secs, with_version);
    lemma_scan_ini_lines(secs, with_version);
    let front: Seq<Seq<char>> = if a.len() > 0 {
        lemma_join_append(a, b, "\n"@);
        assert(text == join(a, "\n"@) + "\n"@ + join(b, "\n"@));
        assert(text =~= join(a, "\n"@) + "\n"@ + (h + "\n"@ + rest));
        lemma_lines_prefix(a, h + "\n"@ + rest);
        a
    } else {
        assert(a + b =~= b);
        Seq::<Seq<char>>::empty()
    };
    assert(lines(text) =~= front + seq![h] + lines(rest));
    let s0 = scan_from(scan_start(), front);
    if a.len() > 0 {
        assert(s0 == scan_from(scan_start(), a));
    } else {
        assert(secs.len() == 0);
        assert(s0 == scan_start());
    }
    lemma_scan_lines_from(lines(text));
    lemma_scan_from_append(scan_start(), front + seq![h], lines(rest));
    lemma_scan_from_append(scan_start(), front, seq![h]);
    lemma_scan_one(s0, h);
    lemma_scan_header(s0, x.0);
    let s1 = scan_from(s0, seq![h]);
    let k = secs.len() as int;
    if secs.len() > 0 {
        assert(secs.drop_last().push(secs.last()) =~= secs);
    } else {
        assert(s1.sections =~= Seq::<SectionView>::empty());
    }
    assert(section_at_is(s1, k, x.0));
    lemma_scan_keeps_section_at(s1, lines(rest), k, x.0);
    let st = scan_lines(lines(text));
    assert(section_at_is(st, k, x.0));
    let r = ini_sections(text);
    if st.sections.len() == k {
        assert(r[k].0 == x.0);
    } else {
        if st.name.len() > 0 {
            assert(r[k] == st.sections[k]);
        }
        assert(r[k].0 == x.0);
    }
}

// ---------------------------------------------------------------------------
// Lines that reading passes over
// ---------------------------------------------------------------------------

/// A line that reading `config.ini` passes over: blank, a `#` or `;` comment, or a line that is
/// neither a section header nor holds `=`.
pub open spec fn skipped_line(x: Seq<char>) -> bool {
    let l = trim(x);
    ||| l.len() == 0
    ||| l[0] == '#'
    ||| l[0] == ';'
    ||| !(l[0] == '[' && l.last() == ']') && index_of_char(l, '=') == l.len()
}

/// Splitting text that ends with a line break, followed by more text, splits the two apart.
proof fn lemma_lines_append(a: Seq<char>, y: Seq<char>)
    requires
        a.len() == 0 || a.last() == '\n',
    ensures
        lines(a + y) == lines(a) + lines(y),
    decreases a.len(),
{
    if a.len() == 0 {
        assert(a + y =~= y);
        assert(lines(a) + lines(y) =~= lines(y));
    } else {
        lemma_index_of_char(a, '\n');
        let k = index_of_char(a, '\n') as int;
        assert(a[a.len() - 1] == '\n');
        assert(k < a.len());
        let ay = a + y;
        assert forall|j: int| 0 <= j < k implies ay[j] != '\n' by {
            assert(ay[j] == a[j]);
        }
        lemma_index_of_char_unique(ay, '\n', k);
        let a2 = a.subrange(k + 1, a.len() as int);
        if a2.len() > 0 {
            assert(a2.last() == a.last());
        }
        lemma_lines_append(a2, y);
        assert(ay.subrange(0, k) =~= a.subrange(0, k));
        assert(ay.subrange(k + 1, ay.len() as int) =~= a2 + y);
        assert(lines(ay) == seq![strip_cr(a.subrange(0, k))] + lines(a2 + y));
        assert(lines(a) == seq![strip_cr(a.subrange(0, k))] + lines(a2));
        assert(lines(ay) =~= lines(a) + lines(y));
    }
}

/// A line that reading passes over (its `'\r'` before the line break dropped, as splitting
/// into lines does), put anywhere between the lines of a `config.ini` text, leaves the sections
/// read from it unchanged.
pub proof fn law_skipped_line_changes_nothing(a: Seq<char>, x: Seq<char>, b: Seq<char>)
    requires
        a.len() == 0 || a.last() == '\n',
        no_newline(x),
        skipped_line(strip_cr(x)),
    ensures
        ini_sections(a + x + "\n"@ + b) == ini_sections(a + b),
{
    reveal_strlit("\n");
    let d2 = a + x + "\n"@ + b;
    let d1 = a + b;
    assert(d2 =~= a + (x + "\n"@ + b));
    lemma_lines_append(a, x + "\n"@ + b);
    lemma_lines_append(a, b);
    lemma_lines_cons(x, b);
    let y = strip_cr(x);
    let la = lines(a);
    let lb = lines(b);
    assert(lines(d2) =~= la + seq![y] + lb);
    assert(lines(d1) == la + lb);
    lemma_scan_lines_from(lines(d2));
    lemma_scan_lines_from(lines(d1));
    lemma_scan_from_append(scan_start(), la + seq![y], lb);
    lemma_scan_from_append(scan_start(), la, seq![y]);
    lemma_scan_from_append(scan_start(), la, lb);
    let sa = scan_from(scan_start(), la);
    lemma_scan_one(sa, y);
    assert(scan_line(sa, y) == sa);
}

/// Lines, each followed by a line break.
pub open spec fn line_block(xs: Seq<Seq<char>>) -> Seq<char>
    decreases xs.len(),
{
    if xs.len() == 0 {
        seq![]
    } else {
        line_block(xs.drop_last()) + xs.last() + "\n"@
    }
}

/// Any number of lines that reading passes over, put anywhere between the lines of a
/// `config.ini` text, leave the sections read from it unchanged.
pub proof fn law_skipped_lines_change_nothing(a: Seq<char>, xs: Seq<Seq<char>>, b: Seq<char>)
    requires
        a.len() == 0 || a.last() == '\n',
        forall|i: int| 0 <= i < xs.len() ==> no_newline(#[trigger] xs[i]),
        forall|i: int| 0 <= i < xs.len() ==> skipped_line(strip_cr(#[trigger] xs[i])),
    ensures
        ini_sections(a + line_block(xs) + b) == ini_sections(a + b),
    decreases xs.len(),
{
    reveal_strlit("\n");
    if xs.len() == 0 {
        assert(a + line_block(xs) + b =~= a + b);
    } else {
        let p = xs.drop_last();
        let x = xs.last();
        assert forall|i: int| 0 <= i < p.len() implies no_newline(#[trigger] p[i]) by {
            assert(p[i] == xs[i]);
        }
        assert forall|i: int| 0 <= i < p.len() implies skipped_line(strip_cr(#[trigger] p[i])) by {
            assert(p[i] == xs[i]);
        }
        law_skipped_lines_change_nothing(a, p, b);
        let a2 = a + line_block(p);
        if line_block(p).len() > 0 {
            assert(line_block(p) == line_block(p.drop_last()) + p.last() + "\n"@);
            assert(a2.last() == '\n');
        } else {
            assert(a2 =~= a);
        }
        assert(no_newline(xs[xs.len() - 1]));
        assert(skipped_line(strip_cr(xs[xs.len() - 1])));
        law_skipped_line_changes_nothing(a2, x, b);
        assert(a + line_block(xs) + b =~= a2 + x + "\n"@ + b);
        assert(a2 + b =~= a + line_block(p) + b);
    }
}

} // verus!
