use functional_commitment::ac_bridge::{Matrix, R1CSfIndex};
use functional_commitment::bn254::Fr;
use functional_commitment::r1cs_info::{non_zero_entries, r1cs_info, R1csInfo};

fn matrix(lengths: &[usize]) -> Matrix<Fr> {
    lengths.iter().map(|&n| vec![(Fr::from_u64(1), 0); n]).collect()
}

#[test]
fn entries_are_counted_over_all_rows() {
    assert_eq!(non_zero_entries(&matrix(&[2, 0, 3])), 5);
    assert_eq!(non_zero_entries(&matrix(&[])), 0);
}

#[test]
fn matrices_are_measured() {
    let index_info = R1CSfIndex {
        number_of_constraints: 3,
        number_of_input_rows: 2,
        number_of_outputs: 1,
        number_of_non_zero_entries: 9,
    };
    let assignment = vec![Fr::from_u64(1); 4];
    let info = r1cs_info(
        &index_info,
        &matrix(&[1, 1, 2]),
        &matrix(&[1, 0, 1]),
        &matrix(&[1, 1, 1]),
        &assignment,
    );
    let wanted = R1csInfo { rows: 3, cols: 4, total: 12, nnz_a: 4, nnz_b: 2, nnz_c: 3 };
    assert_eq!(info, wanted);
}
