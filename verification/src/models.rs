use vstd::prelude::*;

use crate::text::{
    chars_ends_with, chars_lt, chars_starts_with, chars_trim_end_matches, ends_with, from_chars,
    lemma_lex_total, lemma_lex_transitive, lex_le, lex_lt, starts_with, string_views, to_chars,
    trim_end_matches,
};

verus! {

/// Names in non-decreasing order (the order of `Vec<String>::sort`).
pub open spec fn names_sorted(s: Seq<Seq<char>>) -> bool {
    forall|i: int, j: int| 0 <= i < j < s.len() ==> lex_le(#[trigger] s[i], #[trigger] s[j])
}

proof fn lemma_insert_multiset<A>(s: Seq<A>, p: int, x: A)
    requires
        0 <= p <= s.len(),
    ensures
        s.insert(p, x).to_multiset() =~= s.to_multiset().insert(x),
{
    broadcast use vstd::seq_lib::group_to_multiset_ensures;

    let t = s.insert(p, x);
    assert(t.remove(p) =~= s);
    assert(t[p] == x);
    assert(t.contains(x));
    assert(t.to_multiset().remove(x) =~= s.to_multiset());
    assert(t.to_multiset().count(x) > 0);
}

proof fn lemma_string_views_insert(v: Seq<String>, p: int, x: String)
    requires
        0 <= p <= v.len(),
    ensures
        string_views(v.insert(p, x)) == string_views(v).insert(p, x@),
{
    assert(string_views(v.insert(p, x)) =~= string_views(v).insert(p, x@));
}

/// Sorts names into non-decreasing order (code point by code point).
pub fn sort_names(names: Vec<String>) -> (r: Vec<String>)
    ensures
        names_sorted(string_views(r@)),
        string_views(r@).to_multiset() == string_views(names@).to_multiset(),
{
    let mut r: Vec<String> = Vec::new();
    let n = names.len();
    let ghost src = string_views(names@);
    assert(string_views(r@) =~= src.take(0));
    for i in 0..n
        invariant
            n == names@.len(),
            src == string_views(names@),
            names_sorted(string_views(r@)),
            string_views(r@).to_multiset() == src.take(i as int).to_multiset(),
    {
        let x = names[i].clone();
        let xc = to_chars(x.as_str());
        let ghost s = string_views(r@);
        let mut p: usize = 0;
        let m = r.len();
        while p < m
            invariant
                m == r@.len(),
                s == string_views(r@),
                xc@ == x@,
                p <= m,
                forall|k: int| 0 <= k < p ==> !lex_lt(x@, #[trigger] s[k]),
            ensures
                p <= m,
                forall|k: int| 0 <= k < p ==> !lex_lt(x@, #[trigger] s[k]),
                p < m ==> lex_lt(x@, s[p as int]),
            decreases m - p,
        {
            let yc = to_chars(r[p].as_str());
            assert(s[p as int] == yc@);
            if chars_lt(&xc, &yc) {
                break;
            }
            p = p + 1;
        }
        proof {
            let t = s.insert(p as int, x@);
            s.insert_ensures(p as int, x@);
            assert forall|a: int, b: int| 0 <= a < b < t.len() implies lex_le(
                #[trigger] t[a],
                #[trigger] t[b],
            ) by {
                if b < p {
                    assert(t[a] == s[a] && t[b] == s[b]);
                } else if b == p {
                    assert(t[a] == s[a]);
                    lemma_lex_total(s[a], x@);
                } else {
                    assert(t[b] == s[b - 1]);
                    if a < p {
                        assert(t[a] == s[a]);
                        assert(lex_lt(x@, s[p as int]));
                        lemma_lex_total(s[a], x@);
                        if b - 1 > p {
                            assert(lex_le(s[p as int], s[b - 1]));
                            if s[p as int] != s[b - 1] {
                                lemma_lex_transitive(x@, s[p as int], s[b - 1]);
                            }
                        }
                        if lex_lt(s[a], x@) {
                            lemma_lex_transitive(s[a], x@, s[b - 1]);
                        }
                    } else if a == p {
                        assert(t[a] == x@);
                        if b - 1 > p {
                            assert(lex_le(s[p as int], s[b - 1]));
                            if s[p as int] != s[b - 1] {
                                lemma_lex_transitive(x@, s[p as int], s[b - 1]);
                            }
                        }
                    } else {
                        assert(t[a] == s[a - 1]);
                    }
                }
            }
            lemma_insert_multiset(s, p as int, x@);
            lemma_string_views_insert(r@, p as int, x);
            assert(src.take(i + 1) =~= src.take(i as int).push(src[i as int]));
            broadcast use vstd::seq_lib::group_to_multiset_ensures;
        }
        r.insert(p, x);
    }
    assert(src.take(n as int) =~= src);
    r
}

/// The model name of a `.gguf` file: the name without its trailing `.gguf` (every one of them).
pub open spec fn model_name_of(file: Seq<char>) -> Seq<char> {
    trim_end_matches(file, ".gguf"@)
}

pub open spec fn is_model_file(file: Seq<char>) -> bool {
    ends_with(file, ".gguf"@) && !starts_with(file, "mmproj"@)
}

pub open spec fn is_mmproj_file(file: Seq<char>) -> bool {
    ends_with(file, ".gguf"@) && starts_with(file, "mmproj"@)
}

/// The model names of the files whose names satisfy `keep`, in the order of `files`.
pub open spec fn models_among(files: Seq<Seq<char>>, keep: spec_fn(Seq<char>) -> bool) -> Seq<
    Seq<char>,
> {
    files.filter(keep).map_values(|f: Seq<char>| model_name_of(f))
}

fn model_names_where(file_names: &Vec<String>, mmproj: bool) -> (r: Vec<String>)
    ensures
        string_views(r@) == models_among(
            string_views(file_names@),
            if mmproj {
                |f: Seq<char>| is_mmproj_file(f)
            } else {
                |f: Seq<char>| is_model_file(f)
            },
        ),
{
    let ghost keep = if mmproj {
        |f: Seq<char>| is_mmproj_file(f)
    } else {
        |f: Seq<char>| is_model_file(f)
    };
    let ghost files = string_views(file_names@);
    let mut r: Vec<String> = Vec::new();
    let n = file_names.len();
    for i in 0..n
        invariant
            n == file_names@.len(),
            files == string_views(file_names@),
            keep == (if mmproj {
                |f: Seq<char>| is_mmproj_file(f)
            } else {
                |f: Seq<char>| is_model_file(f)
            }),
            string_views(r@) == models_among(files.take(i as int), keep),
    {
        let v = to_chars(file_names[i].as_str());
        assert(files[i as int] == v@);
        proof {
            let tk = files.take(i as int);
            assert(files.take(i + 1) =~= tk.push(files[i as int]));
            tk.lemma_filter_push(files[i as int], keep);
        }
        let take = chars_ends_with(&v, ".gguf") && (chars_starts_with(&v, "mmproj") == mmproj);
        if take {
            proof {
                reveal_strlit(".gguf");
            }
            let name = from_chars(&chars_trim_end_matches(&v, ".gguf"));
            assert(string_views(r@.push(name)) =~= string_views(r@).push(name@));
            r.push(name);
            assert(models_among(files.take(i + 1), keep) =~= models_among(files.take(i as int), keep).push(
                model_name_of(files[i as int]),
            ));
        } else {
            assert(models_among(files.take(i + 1), keep) =~= models_among(files.take(i as int), keep));
        }
    }
    assert(files.take(n as int) =~= files);
    r
}

/// The models of a model directory whose entries are `file_names`: the `.gguf` files that are
/// not `mmproj` projectors, without the extension, sorted.
pub fn list_models(file_names: &Vec<String>) -> (r: Vec<String>)
    ensures
        names_sorted(string_views(r@)),
        string_views(r@).to_multiset() == models_among(
            string_views(file_names@),
            |f: Seq<char>| is_model_file(f),
        ).to_multiset(),
{
    sort_names(model_names_where(file_names, false))
}

/// The vision projectors of a model directory whose entries are `file_names`: the `.gguf` files
/// whose names start with `mmproj`, without the extension, sorted.
pub fn list_mmproj_models(file_names: &Vec<String>) -> (r: Vec<String>)
    ensures
        names_sorted(string_views(r@)),
        string_views(r@).to_multiset() == models_among(
            string_views(file_names@),
            |f: Seq<char>| is_mmproj_file(f),
        ).to_multiset(),
{
    sort_names(model_names_where(file_names, true))
}

} // verus!
