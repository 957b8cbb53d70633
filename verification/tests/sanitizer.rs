use khawrizm::sanitizer::{accept_structured, chunk_text, raw_data_prompt, render_section, synthesize_corpus, Structured};

fn st(md: &str) -> Structured {
    Structured {
        section_title: "Intro".to_string(),
        executive_summary: "Short".to_string(),
        entities: vec!["A".to_string(), "B".to_string()],
        structured_markdown: md.to_string(),
        tags: vec!["t".to_string()],
    }
}

#[test]
fn chunks_split_at_blank_lines_when_over_budget() {
    let text = "aaaa\n\nbbbb\n\ncccc";
    assert_eq!(chunk_text(text, 9), vec!["aaaa", "bbbb", "cccc"]);
    assert_eq!(chunk_text(text, 100), vec!["aaaa\n\nbbbb\n\ncccc"]);
    assert_eq!(chunk_text(text, 10), vec!["aaaa\n\nbbbb", "cccc"]);
    assert_eq!(chunk_text(text, 15), vec!["aaaa\n\nbbbb", "cccc"]);
    assert_eq!(chunk_text(text, 16), vec!["aaaa\n\nbbbb\n\ncccc"]);
    assert_eq!(chunk_text("aaaa\n\nbb", 10), vec!["aaaa\n\nbb"]);
}

#[test]
fn chunks_are_trimmed_and_counted_in_bytes() {
    assert_eq!(chunk_text("  x  \n\n yy ", 5), vec!["x", "yy"]);
    assert_eq!(chunk_text("éé\n\néé", 8), vec!["éé", "éé"]);
    assert_eq!(chunk_text("éé\n\néé", 10), vec!["éé\n\néé"]);
}

#[test]
fn empty_text_is_its_own_chunk() {
    assert_eq!(chunk_text("", 10), vec![""]);
    assert_eq!(chunk_text("\n\n", 10), vec!["\n\n"]);
}

#[test]
fn prompt_and_acceptance() {
    assert_eq!(raw_data_prompt("x"), "RAW DATA:\nx");
    assert!(accept_structured(Some(st(""))).is_none());
    assert!(accept_structured(None).is_none());
    assert_eq!(accept_structured(Some(st("# body"))).unwrap().structured_markdown, "# body");
}

#[test]
fn sections_and_corpus() {
    assert_eq!(
        render_section(&st("md")),
        "## Intro\n\n**Summary:** Short\n\n**Entities:** A, B\n\nmd\n\n**Tags:** t\n\n---\n\n"
    );
    let corpus = synthesize_corpus(&vec![None, Some(st("m1"))]);
    assert_eq!(
        corpus,
        "# Ring-0 Master Synthesized Corpus (v1.4 Rust)\n\n---\n\n## Intro\n\n**Summary:** Short\n\n**Entities:** A, B\n\nm1\n\n**Tags:** t\n\n---\n\n"
    );
    assert_eq!(synthesize_corpus(&vec![]), "# Ring-0 Master Synthesized Corpus (v1.4 Rust)\n\n---\n\n");
}

#[test]
fn chunks_come_out_trimmed() {
    for c in chunk_text(" a \n\n\u{3000}b\u{3000}\n\n c c ", 4) {
        assert_eq!(c.trim(), c);
    }
}
