use khawrizm::llm::generation_outcome;
use khawrizm::monolith::build_master_markdown;
use khawrizm::provenance::{concat_signatures, sign_pq, verify_pq};
use khawrizm::unikernel::{extract_all_zero_copy, sign_with_pq_provenance};

#[test]
fn monolith_skips_blank_files() {
    let results = vec![
        ("a.txt".to_string(), "alpha".to_string()),
        ("b.txt".to_string(), "  \n ".to_string()),
        ("c.txt".to_string(), "gamma\n".to_string()),
    ];
    assert_eq!(
        build_master_markdown("./raw_data", &results),
        "# Ring-0 v2.0 Monolith Corpus\n\n**Source Directory:** ./raw_data | **Deterministic Build**\n\n---\n\n## File: a.txt\n\nalpha\n\n---\n\n## File: c.txt\n\ngamma\n\n\n---\n\n"
    );
}

#[test]
fn unikernel_stages() {
    let corpus = extract_all_zero_copy("/raw_data");
    assert_eq!(corpus, b"[Unikernel extracted corpus]".to_vec());
    let signed = sign_with_pq_provenance(&corpus);
    assert_eq!(signed, b"[Unikernel extracted corpus]\n--- PQ SIGNATURE (Dilithium + SPHINCS+) ---".to_vec());
}

#[test]
fn provenance_blob() {
    assert_eq!(concat_signatures(&[1, 2], &[3]), vec![1, 2, 3]);
    assert!(verify_pq(b"x", b"", "key.pub"));
    let data = b"Master_Ring0";
    let blob = sign_pq(data, "secure_key.bin");
    assert_eq!(blob.len(), 2420 + 7856);
    assert_eq!(sign_pq(b"", "secure_key.bin").len(), 2420 + 7856);
}

#[test]
fn generation_outcomes() {
    assert_eq!(generation_outcome(false, Some("{}".to_string())), Err("ctx alloc failed".to_string()));
    assert_eq!(generation_outcome(true, None), Err("generation failed or schema violation".to_string()));
    assert_eq!(generation_outcome(true, Some("{\"a\":1}".to_string())), Ok("{\"a\":1}".to_string()));
}
