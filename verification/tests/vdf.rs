use dawn::util::vdf::{solution_well_formed, verify_solution};

#[test]
fn malformed_solutions_are_refused_without_reading_them() {
    let zeros = vec![0u8; 130];
    assert!(!solution_well_formed(b"challenge", &zeros));
    assert!(!verify_solution(b"challenge", &zeros));
    let mut with_zero_proof = vec![0u8; 260];
    with_zero_proof[64] = 1;
    assert!(!verify_solution(b"challenge", &with_zero_proof));
}

#[test]
fn solutions_of_another_length_are_simply_rejected() {
    assert!(solution_well_formed(b"challenge", &[1, 2, 3]));
    assert!(!verify_solution(b"challenge", &[1, 2, 3]));
    assert!(!verify_solution(b"challenge", &[]));
}
