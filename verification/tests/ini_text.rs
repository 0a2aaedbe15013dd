use llamacpp_launcher::ini::{
    find_section, params_of_text, parse_sections, sections_to_ini, Params, Section,
};

fn params(pairs: &[(&str, &str)]) -> Params {
    let mut p = Params::new();
    for (k, v) in pairs {
        p.insert(k.to_string(), v.to_string());
    }
    p
}

fn entries(p: &Params) -> Vec<(String, String)> {
    let mut out = Vec::new();
    for i in 0..p.len() {
        let (k, v) = p.entry(i);
        out.push((k.clone(), v.clone()));
    }
    out
}

#[test]
fn params_keep_keys_sorted_and_replace_values() {
    let mut p = params(&[("b", "2"), ("a", "1"), ("c", "3")]);
    p.insert("b".to_string(), "20".to_string());
    assert_eq!(
        entries(&p),
        vec![
            ("a".to_string(), "1".to_string()),
            ("b".to_string(), "20".to_string()),
            ("c".to_string(), "3".to_string())
        ]
    );
    assert_eq!(p.get("b"), Some(&"20".to_string()));
    assert_eq!(p.get("z"), None);
    assert!(p.same_as(&params(&[("c", "3"), ("b", "20"), ("a", "1")])));
    assert!(!p.same_as(&params(&[("a", "1")])));
}

#[test]
fn parse_sections_reads_headers_comments_and_pairs() {
    let data = "# version = 1\n\n; note\nstray = 1\n[*]\nctx-size = 4096\n  n-gpu-layers=30  \n\n[m1]\nmodel = /d/m1.gguf\nnot a pair\n[]\nx = 1\n[m2]\r\nk = a = b\r\n";
    let secs = parse_sections(data);
    assert_eq!(secs.len(), 3);
    assert_eq!(secs[0].name, "*");
    // pairs before the first named header, and after `[]`, go to the next named section
    assert_eq!(
        entries(&secs[0].params),
        vec![
            ("ctx-size".to_string(), "4096".to_string()),
            ("n-gpu-layers".to_string(), "30".to_string()),
            ("stray".to_string(), "1".to_string())
        ]
    );
    assert_eq!(secs[1].name, "m1");
    assert_eq!(entries(&secs[1].params), vec![("model".to_string(), "/d/m1.gguf".to_string())]);
    assert_eq!(secs[2].name, "m2");
    assert_eq!(
        entries(&secs[2].params),
        vec![("k".to_string(), "a = b".to_string()), ("x".to_string(), "1".to_string())]
    );
}

#[test]
fn parse_sections_of_empty_text() {
    assert_eq!(parse_sections("").len(), 0);
    assert_eq!(parse_sections("a = 1\n# only a comment\n").len(), 0);
}

#[test]
fn sections_to_ini_writes_sorted_keys_and_version_line() {
    let secs = vec![
        Section { name: "*".to_string(), params: params(&[("n-gpu-layers", "30"), ("ctx-size", "4096")]) },
        Section { name: "m1".to_string(), params: params(&[("model", "/d/m1.gguf")]) },
    ];
    let text = sections_to_ini(&secs, true);
    assert_eq!(
        text,
        "# version = 1\n\n[*]\nctx-size = 4096\nn-gpu-layers = 30\n\n[m1]\nmodel = /d/m1.gguf\n"
    );
    let plain = sections_to_ini(&secs, false);
    assert_eq!(plain, "[*]\nctx-size = 4096\nn-gpu-layers = 30\n\n[m1]\nmodel = /d/m1.gguf\n");
    assert_eq!(sections_to_ini(&Vec::new(), true), "# version = 1\n");
    assert_eq!(sections_to_ini(&Vec::new(), false), "");
}

#[test]
fn written_sections_read_back() {
    let secs = vec![
        Section { name: "a".to_string(), params: params(&[("k", "v"), ("empty", "")]) },
        Section { name: "b c".to_string(), params: Params::new() },
        Section { name: "a".to_string(), params: params(&[("x", "[y]")]) },
    ];
    let back = parse_sections(&sections_to_ini(&secs, true));
    assert_eq!(back.len(), 3);
    for i in 0..3 {
        assert_eq!(back[i].name, secs[i].name);
        assert!(back[i].params.same_as(&secs[i].params));
    }
}

#[test]
fn rewriting_keeps_sections() {
    let data = "[m]\n b = 2 \n a=1\n[n]\n";
    let first = parse_sections(data);
    let again = parse_sections(&sections_to_ini(&first, false));
    assert_eq!(again.len(), first.len());
    for i in 0..first.len() {
        assert_eq!(again[i].name, first[i].name);
        assert!(again[i].params.same_as(&first[i].params));
    }
}

#[test]
fn find_section_gives_first_match_or_len() {
    let secs = parse_sections("[a]\n[b]\n[a]\nk = v\n");
    assert_eq!(find_section(&secs, "a"), 0);
    assert_eq!(find_section(&secs, "b"), 1);
    assert_eq!(find_section(&secs, "c"), 3);
}

#[test]
fn params_of_text_reads_every_line_with_equals() {
    let p = params_of_text("[x]\nmodel = /m.gguf\n# c = 1\nplain\nk=v=w\n");
    assert_eq!(
        entries(&p),
        vec![
            ("# c".to_string(), "1".to_string()),
            ("k".to_string(), "v=w".to_string()),
            ("model".to_string(), "/m.gguf".to_string())
        ]
    );
}

#[test]
fn several_skipped_lines_with_carriage_returns_change_nothing() {
    let d1 = "[a]\nk = v\n";
    let d2 = "[a]\n# one\r\n\r\n; two\r\nnothing here\r\nk = v\n";
    let s1 = parse_sections(d1);
    let s2 = parse_sections(d2);
    assert_eq!(s1.len(), 1);
    assert_eq!(s2.len(), 1);
    assert_eq!(s2[0].name, "a");
    assert!(s1[0].params.same_as(&s2[0].params));
}
