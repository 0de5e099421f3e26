use ark_ff::PrimeField;
use pasta_fp_urs::batch::{batch_accumulator_check, batch_accumulator_check_with_weights};
use pasta_fp_urs::bpoly::{b_poly_coefficients, b_poly_commitment};
use pasta_fp_urs::commit::UrsError;
use pasta_fp_urs::field::{scalar_from_limbs, scalar_from_u64, Scalar};
use pasta_fp_urs::lagrange::{commit_evaluations, lagrange_commitment};
use pasta_fp_urs::point::{weighted_sum_of_points, Point};
use pasta_fp_urs::srs::ReferenceString;

fn fr(x: u64) -> ark_vesta::Fr {
    ark_vesta::Fr::from(x)
}

fn limbs(f: ark_vesta::Fr) -> [u64; 4] {
    f.into_bigint().0
}

fn sc(x: u64) -> Scalar {
    scalar_from_u64(x)
}

fn sc_fr(f: ark_vesta::Fr) -> Scalar {
    scalar_from_limbs(limbs(f))
}

#[test]
fn b_poly_empty_is_one() {
    let out = b_poly_coefficients(&vec![]);
    assert_eq!(out.len(), 1);
    assert_eq!(out[0].limbs, [1, 0, 0, 0]);
}

#[test]
fn b_poly_single_challenge() {
    let out = b_poly_coefficients(&vec![sc(7)]);
    assert_eq!(out.len(), 2);
    assert_eq!(out[0].limbs, [1, 0, 0, 0]);
    assert_eq!(out[1].limbs, [7, 0, 0, 0]);
}

#[test]
fn b_poly_two_challenges() {
    let out = b_poly_coefficients(&vec![sc(3), sc(5)]);
    assert_eq!(out.len(), 4);
    assert_eq!(out[0].limbs, [1, 0, 0, 0]);
    assert_eq!(out[1].limbs, [5, 0, 0, 0]);
    assert_eq!(out[2].limbs, [3, 0, 0, 0]);
    assert_eq!(out[3].limbs, [15, 0, 0, 0]);
}

#[test]
fn b_poly_two_challenges_reduced() {
    let c0 = -fr(1);
    let c1 = fr(2);
    let out = b_poly_coefficients(&vec![sc_fr(c0), sc_fr(c1)]);
    assert_eq!(out.len(), 4);
    assert_eq!(out[0].limbs, [1, 0, 0, 0]);
    assert_eq!(out[1].limbs, limbs(c1));
    assert_eq!(out[2].limbs, limbs(c0));
    assert_eq!(out[3].limbs, limbs(c0 * c1));
}

#[test]
fn scalar_reduction_is_canonical() {
    let modulus = <ark_vesta::Fr as PrimeField>::MODULUS.0;
    let s = scalar_from_limbs(modulus);
    assert_eq!(s.limbs, [0, 0, 0, 0]);
}

#[test]
fn create_is_deterministic() {
    let a = ReferenceString::create(4);
    let b = ReferenceString::create(4);
    assert_eq!(a.g.len(), 4);
    assert_eq!(a.to_bytes(), b.to_bytes());
    assert_eq!(a.h().bytes.len(), 33);
}

#[test]
fn commit_is_homomorphic() {
    let srs = ReferenceString::create(8);
    let p = vec![fr(1), fr(22), fr(333)];
    let q = vec![fr(40), fr(5), fr(600)];
    let pq: Vec<Scalar> = p.iter().zip(q.iter()).map(|(a, b)| sc_fr(*a + *b)).collect();
    let cp = srs
        .commit_non_hiding(&p.iter().map(|x| sc_fr(*x)).collect(), None)
        .unwrap();
    let cq = srs
        .commit_non_hiding(&q.iter().map(|x| sc_fr(*x)).collect(), None)
        .unwrap();
    let cpq = srs.commit_non_hiding(&pq, None).unwrap();
    let summed = weighted_sum_of_points(
        &vec![sc(1), sc(1)],
        &vec![
            Point { bytes: cp.unshifted[0].bytes.clone() },
            Point { bytes: cq.unshifted[0].bytes.clone() },
        ],
    );
    assert_eq!(summed.bytes, cpq.unshifted[0].bytes);
}

#[test]
fn commit_of_zero_vector_is_identity() {
    let srs = ReferenceString::create(4);
    let zeros = srs
        .commit_non_hiding(&vec![sc(0), sc(0), sc(0)], None)
        .unwrap();
    let empty = srs.commit_non_hiding(&vec![], None).unwrap();
    assert_eq!(zeros.unshifted[0].bytes, empty.unshifted[0].bytes);
    assert!(zeros.shifted.is_none());
}

#[test]
fn commit_rejects_long_polynomial() {
    let srs = ReferenceString::create(2);
    let r = srs.commit_non_hiding(&vec![sc(1), sc(2), sc(3)], None);
    assert_eq!(r.err().unwrap(), UrsError::InsufficientBasis);
}

#[test]
fn commit_degree_bound_shifts_against_tail() {
    let srs = ReferenceString::create(8);
    let p = vec![sc(9), sc(8), sc(7)];
    let bounded = srs.commit_non_hiding(&p, Some(3)).unwrap();
    let shifted = bounded.shifted.expect("bound below basis length");
    let mut padded = vec![sc(0); 5];
    padded.extend_from_slice(&p);
    let aligned = srs.commit_non_hiding(&padded, None).unwrap();
    assert_eq!(shifted.bytes, aligned.unshifted[0].bytes);
    let unbounded = srs.commit_non_hiding(&p, Some(8)).unwrap();
    assert!(unbounded.shifted.is_none());
    let r = srs.commit_non_hiding(&p, Some(2));
    assert_eq!(r.err().unwrap(), UrsError::InsufficientBasis);
}

#[test]
fn commit_evaluations_matches_lagrange_sum() {
    let srs = ReferenceString::create(8);
    let v = vec![sc(2), sc(5), sc(7), sc(11)];
    let direct = commit_evaluations(&srs, 4, &v).unwrap();
    let basis: Vec<Point> = (0..4)
        .map(|i| {
            let c = lagrange_commitment(&srs, 4, i).unwrap();
            Point { bytes: c.unshifted[0].bytes.clone() }
        })
        .collect();
    let summed = weighted_sum_of_points(&v, &basis);
    assert_eq!(summed.bytes, direct.unshifted[0].bytes);
}

#[test]
fn commit_evaluations_matches_lagrange_sum_padded_domain() {
    let srs = ReferenceString::create(8);
    let v = vec![sc(2), sc(5), sc(7)];
    let direct = commit_evaluations(&srs, 3, &v).unwrap();
    let basis: Vec<Point> = (0..3)
        .map(|i| {
            let c = lagrange_commitment(&srs, 3, i).unwrap();
            Point { bytes: c.unshifted[0].bytes.clone() }
        })
        .collect();
    let summed = weighted_sum_of_points(&v, &basis);
    assert_eq!(summed.bytes, direct.unshifted[0].bytes);
}

#[test]
fn lagrange_and_evaluation_errors() {
    let srs = ReferenceString::create(8);
    assert_eq!(
        lagrange_commitment(&srs, 0, 0).err().unwrap(),
        UrsError::UnsupportedDomain
    );
    assert_eq!(
        lagrange_commitment(&srs, 4, 9).err().unwrap(),
        UrsError::IndexOutOfBounds
    );
    let small = ReferenceString::create(2);
    assert_eq!(
        lagrange_commitment(&small, 4, 1).err().unwrap(),
        UrsError::InsufficientBasis
    );
    assert_eq!(
        commit_evaluations(&srs, 4, &vec![sc(1), sc(2)]).err().unwrap(),
        UrsError::WrongEvaluationCount
    );
    assert_eq!(
        commit_evaluations(&small, 4, &vec![sc(1), sc(2), sc(3), sc(4)]).err().unwrap(),
        UrsError::InsufficientBasis
    );
}

#[test]
fn byte_round_trip_preserves_commitments() {
    let srs = ReferenceString::create(5);
    let bytes = srs.to_bytes();
    let back = ReferenceString::from_bytes(&bytes, 0).expect("parses");
    assert_eq!(back.to_bytes(), bytes);
    assert_eq!(back.h().bytes, srs.h().bytes);
    let p = vec![sc(4), sc(9)];
    let c1 = srs.commit_non_hiding(&p, None).unwrap();
    let c2 = back.commit_non_hiding(&p, None).unwrap();
    assert_eq!(c1.unshifted[0].bytes, c2.unshifted[0].bytes);
}

#[test]
fn byte_round_trip_at_offset() {
    let srs = ReferenceString::create(3);
    let mut buf = vec![0xabu8; 7];
    buf.extend_from_slice(&srs.to_bytes());
    let back = ReferenceString::from_bytes(&buf, 7).expect("parses at offset");
    assert_eq!(back.to_bytes(), srs.to_bytes());
    assert!(ReferenceString::from_bytes(&buf, 3).is_none());
}

#[test]
fn truncated_or_corrupt_bytes_parse_to_nothing() {
    let srs = ReferenceString::create(3);
    let bytes = srs.to_bytes();
    let mut truncated = bytes.clone();
    truncated.pop();
    assert!(ReferenceString::from_bytes(&truncated, 0).is_none());
    let mut bad_count = bytes.clone();
    for b in bad_count.iter_mut().take(8) {
        *b = 0xff;
    }
    assert!(ReferenceString::from_bytes(&bad_count, 0).is_none());
    let mut bad_point = bytes.clone();
    for b in bad_point.iter_mut().skip(8).take(33) {
        *b = 0xff;
    }
    assert!(ReferenceString::from_bytes(&bad_point, 0).is_none());
    assert!(ReferenceString::from_bytes(&bytes, bytes.len() + 1).is_none());
    assert!(ReferenceString::from_bytes(&vec![], 0).is_none());
}

#[test]
fn batch_check_accepts_genuine_pairs() {
    let srs = ReferenceString::create(8);
    let chalss = vec![vec![sc(6)], vec![sc_fr(-fr(3)), sc(10)]];
    let comms: Vec<Point> = chalss
        .iter()
        .map(|chals| {
            let c = b_poly_commitment(&srs, chals).unwrap();
            Point { bytes: c.unshifted[0].bytes.clone() }
        })
        .collect();
    let weights = vec![sc(3), sc(97)];
    assert!(batch_accumulator_check_with_weights(
        &srs, &comms, &chalss, &weights
    ));
    assert!(batch_accumulator_check(&srs, &comms, &chalss));
}

#[test]
fn batch_check_rejects_tampered_point() {
    let srs = ReferenceString::create(8);
    let chalss = vec![vec![sc(6)], vec![sc(12), sc(10)]];
    let mut comms: Vec<Point> = chalss
        .iter()
        .map(|chals| {
            let c = b_poly_commitment(&srs, chals).unwrap();
            Point { bytes: c.unshifted[0].bytes.clone() }
        })
        .collect();
    comms[1].bytes[0] ^= 1;
    let weights = vec![sc(1), sc(1)];
    assert!(!batch_accumulator_check_with_weights(
        &srs, &comms, &chalss, &weights
    ));
}

#[test]
fn batch_check_rejects_oversized_entry() {
    let srs = ReferenceString::create(2);
    let chalss = vec![vec![sc(4), sc(5)]];
    let comms = vec![Point { bytes: srs.h().bytes.clone() }];
    let weights = vec![sc(1)];
    assert!(!batch_accumulator_check_with_weights(
        &srs, &comms, &chalss, &weights
    ));
}

#[test]
fn batch_check_accepts_empty_batch() {
    let srs = ReferenceString::create(2);
    assert!(batch_accumulator_check_with_weights(
        &srs,
        &vec![],
        &vec![],
        &vec![]
    ));
    assert!(batch_accumulator_check(&srs, &vec![], &vec![]));
}

#[test]
fn trim_preserves_commitments() {
    let srs = ReferenceString::create(8);
    let p = vec![sc(5), sc(6), sc(7)];
    let full = srs.commit_non_hiding(&p, None).unwrap();
    let some = srs.trim(5).commit_non_hiding(&p, None).unwrap();
    let tight = srs.trim(3).commit_non_hiding(&p, None).unwrap();
    assert_eq!(full.unshifted[0].bytes, some.unshifted[0].bytes);
    assert_eq!(full.unshifted[0].bytes, tight.unshifted[0].bytes);
    assert_eq!(srs.trim(3).h().bytes, srs.h().bytes);
}

#[test]
fn b_poly_commitment_trims_and_commits() {
    let srs = ReferenceString::create(8);
    let chals = vec![sc(21), sc(2)];
    let through = b_poly_commitment(&srs, &chals).unwrap();
    let coeffs = b_poly_coefficients(&chals);
    let manual = srs.trim(4).commit_non_hiding(&coeffs, None).unwrap();
    let manual_full = srs.commit_non_hiding(&coeffs, None).unwrap();
    assert_eq!(through.unshifted[0].bytes, manual.unshifted[0].bytes);
    assert_eq!(through.unshifted[0].bytes, manual_full.unshifted[0].bytes);
    assert!(through.shifted.is_none());
    let small = ReferenceString::create(3);
    assert_eq!(
        b_poly_commitment(&small, &chals).err().unwrap(),
        UrsError::InsufficientBasis
    );
}

#[test]
fn constant_evaluations_interpolate_to_constant() {
    let srs = ReferenceString::create(8);
    let c = fr(42);
    let direct = commit_evaluations(&srs, 4, &vec![sc_fr(c); 4]).unwrap();
    let constant = srs.commit_non_hiding(&vec![sc_fr(c)], None).unwrap();
    assert_eq!(direct.unshifted[0].bytes, constant.unshifted[0].bytes);
}

#[test]
fn linear_evaluations_interpolate_to_linear() {
    // The radix-2 domain of size 2 is {1, -1}; the polynomial X takes the
    // values [1, -1] there.
    let srs = ReferenceString::create(8);
    let direct = commit_evaluations(&srs, 2, &vec![sc(1), sc_fr(-fr(1))]).unwrap();
    let linear = srs.commit_non_hiding(&vec![sc(0), sc(1)], None).unwrap();
    assert_eq!(direct.unshifted[0].bytes, linear.unshifted[0].bytes);
}

#[test]
fn short_interpolant_commits_under_few_bases() {
    // A constant evaluation vector interpolates to a degree-0 polynomial,
    // so it commits even when the basis is far smaller than the domain.
    let srs = ReferenceString::create(1);
    let c = fr(9);
    let direct = commit_evaluations(&srs, 4, &vec![sc_fr(c); 4]).unwrap();
    let constant = srs.commit_non_hiding(&vec![sc_fr(c)], None).unwrap();
    assert_eq!(direct.unshifted[0].bytes, constant.unshifted[0].bytes);
}
