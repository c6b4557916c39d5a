use cube::garble::{fiat_shamir_open, InstanceCommit, Row, WinnerVerifier};
use cube::hash::{ripemd160, sha256};
use cube::script::disprove_script;

#[test]
fn winner_verifier_valid_and_invalid() {
    // bands: [0,1000),[1000,3000),[3000,6000),[6000,10000)
    let lo = [0u64, 1000, 3000, 6000];
    let hi = [1000u64, 3000, 6000, 10000];
    let v = WinnerVerifier::new(&lo, &hi);
    let wires = v.wires(7);
    let tables = v.garble(&wires);
    let rg = 5000u64; // entry 2
    // honest claim
    assert_eq!(v.evaluate(&wires, &tables, rg, 2), v.valid_label(&wires));
    // wrong claim -> invalid (disprove secret)
    let out = v.evaluate(&wires, &tables, rg, 0);
    assert_eq!(out, v.invalid_label(&wires));
    assert_eq!(sha256(&out), v.disprove_hash(&wires));
}

#[test]
fn cut_and_choose_opening_is_unpredictable() {
    let lo = [0u64, 1000, 3000, 6000];
    let hi = [1000u64, 3000, 6000, 10000];
    let v = WinnerVerifier::new(&lo, &hi);
    let commits: Vec<InstanceCommit> = (0..8u64)
        .map(|s| {
            let w = v.wires(s + 1);
            let t = v.garble(&w);
            InstanceCommit { tables_commit: v.tables_commit(&t), disprove_hash: v.disprove_hash(&w) }
        })
        .collect();
    let open = fiat_shamir_open(&commits, 8);
    assert_eq!(open.len(), 8);
    assert!(open.iter().any(|&b| b) && open.iter().any(|&b| !b), "some opened, some live");
}

#[test]
fn every_claim_is_judged_by_its_band() {
    let lo = [0u64, 10, 25];
    let hi = [10u64, 25, 40];
    let v = WinnerVerifier::new(&lo, &hi);
    let wires = v.wires(42);
    let tables = v.garble(&wires);
    for rg in [0u64, 9, 10, 24, 25, 39, 40, 1000] {
        for w in 0u64..3 {
            let in_band = lo[w as usize] <= rg && rg < hi[w as usize];
            let expected = if in_band { v.valid_label(&wires) } else { v.invalid_label(&wires) };
            assert_eq!(v.evaluate(&wires, &tables, rg, w), expected);
        }
        // An index without a band selects nothing, which no draw is below.
        assert_eq!(v.evaluate(&wires, &tables, rg, 3), v.invalid_label(&wires));
    }
}

#[test]
fn single_entry_circuit() {
    let v = WinnerVerifier::new(&[5], &[7]);
    let wires = v.wires(1);
    let tables = v.garble(&wires);
    assert_eq!(v.evaluate(&wires, &tables, 5, 0), v.valid_label(&wires));
    assert_eq!(v.evaluate(&wires, &tables, 6, 0), v.valid_label(&wires));
    assert_eq!(v.evaluate(&wires, &tables, 7, 0), v.invalid_label(&wires));
    assert_eq!(v.evaluate(&wires, &tables, 4, 0), v.invalid_label(&wires));
    assert_eq!(v.evaluate(&wires, &tables, 5, 1), v.invalid_label(&wires));
}

#[test]
fn checked_evaluation_agrees_and_refuses_foreign_tables() {
    let v = WinnerVerifier::new(&[0, 50], &[50, 100]);
    let wires = v.wires(3);
    let tables = v.garble(&wires);
    assert_eq!(v.evaluate_checked(&wires, &tables, 60, 1), Some(v.valid_label(&wires)));
    assert_eq!(v.evaluate_checked(&wires, &tables, 60, 0), Some(v.invalid_label(&wires)));
    // Tables of another instance do not open.
    let foreign = v.garble(&v.wires(4));
    assert_eq!(v.evaluate_checked(&wires, &foreign, 60, 1), None);
}

#[test]
fn labels_are_hashes_of_seed_wire_and_value() {
    let v = WinnerVerifier::new(&[0], &[1]);
    let wires = v.wires(7);
    let mut preimage = 7u64.to_le_bytes().to_vec();
    preimage.extend_from_slice(&5u32.to_le_bytes());
    preimage.push(1);
    assert_eq!(wires[5][1], sha256(&preimage));
    let commitments = v.rg_commitments(&wires);
    assert_eq!(commitments.len(), 32);
    // The draw bits follow the two constant wires.
    assert_eq!(commitments[0], (sha256(&wires[2][0]), sha256(&wires[2][1])));
    assert_eq!(commitments[31], (sha256(&wires[33][0]), sha256(&wires[33][1])));
}

#[test]
fn tables_are_rotated_by_gate_and_committed_in_order() {
    let v = WinnerVerifier::new(&[0, 3], &[3, 9]);
    let wires = v.wires(11);
    let tables = v.garble(&wires);
    assert_eq!(tables.len(), v.gate_count());
    assert!(tables.iter().all(|t| t.len() == 4));
    let mut bytes = Vec::new();
    for table in &tables {
        for Row { tag, ct } in table {
            bytes.extend_from_slice(tag);
            bytes.extend_from_slice(ct);
        }
    }
    assert_eq!(v.tables_commit(&tables), sha256(&bytes));
    let second = v.garble(&v.wires(12));
    assert_ne!(v.tables_commit(&tables), v.tables_commit(&second));
}

#[test]
fn opening_follows_the_bits_of_the_digest() {
    let commits = vec![
        InstanceCommit { tables_commit: [1; 32], disprove_hash: [2; 32] },
        InstanceCommit { tables_commit: [3; 32], disprove_hash: [4; 32] },
    ];
    let mut bytes = vec![1u8; 32];
    bytes.extend_from_slice(&[2u8; 32]);
    bytes.extend_from_slice(&[3u8; 32]);
    bytes.extend_from_slice(&[4u8; 32]);
    let h = sha256(&bytes);
    let open = fiat_shamir_open(&commits, 40);
    for (i, bit) in open.iter().enumerate() {
        assert_eq!(*bit, (h[i % 32] >> (i % 8)) & 1 == 1);
    }
    assert_eq!(fiat_shamir_open(&commits, 0).len(), 0);
}

#[test]
fn disprove_secret_hashes_to_the_locked_value() {
    let v = WinnerVerifier::new(&[0, 50], &[50, 100]);
    let wires = v.wires(3);
    let secret = v.invalid_label(&wires);
    let key = hex_array("79be667ef9dcbbac55a06295ce870b07029bfcdb2dce28d959f2815b16f81798");
    let script = disprove_script(&v.disprove_hash(&wires), &key);
    assert_eq!(&script[2..22], &ripemd160(&sha256(&secret))[..]);
}

fn hex_array(text: &str) -> [u8; 32] {
    hex::decode(text).unwrap().try_into().unwrap()
}
