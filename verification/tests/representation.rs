use greedy_evalcheck::evalcheck::MemoizedData;
use greedy_evalcheck::multilinear::{
    eq_expand, fold_scalars, MultilinPoly, SumcheckMultilinear,
};
use greedy_evalcheck::packed::{pack_scalars, PackedElem};
use greedy_evalcheck::sumcheck::detect_const_run;

fn pack4(l0: u16, l1: u16, l2: u16, l3: u16) -> PackedElem {
    PackedElem { l0, l1, l2, l3 }
}

#[test]
fn transparent_starts_with_empty_hint() {
    let poly = MultilinPoly::new(vec![1, 2, 3, 4], 2, 0);
    let rep = SumcheckMultilinear::transparent(poly, &(|_x: usize| 1usize));
    assert_eq!(rep.const_suffix(2), (0, 0));
}

#[test]
fn transparent_switchover_from_extension_degree() {
    // With extension degree 2^3 = 8, the policy sees 8.
    let poly = MultilinPoly::new(vec![0; 16], 4, 3);
    let rep = SumcheckMultilinear::transparent(poly, &(|x: usize| x + 1));
    match rep {
        SumcheckMultilinear::Transparent { switchover_round, .. } => {
            assert_eq!(switchover_round, 9);
        }
        SumcheckMultilinear::Folded { .. } => panic!("expected a transparent value"),
    }
}

#[test]
fn folded_suffix_is_derived_from_length() {
    // One packed element = 4 lanes over a 16-point domain: 12 implicit lanes.
    let rep = SumcheckMultilinear::folded(vec![pack4(1, 2, 3, 4)]);
    assert_eq!(rep.const_suffix(4), (0, 12));
    // At a domain no larger than the stored lanes the suffix is empty.
    assert_eq!(rep.const_suffix(2), (0, 0));
}

#[test]
fn update_const_suffix_truncates_folded_storage() {
    // 16 lanes stored over a 16-point domain; a suffix of 9 leaves 7 lanes,
    // which round up to 2 whole packed elements.
    let rep_evals = vec![
        pack4(1, 2, 3, 4),
        pack4(5, 6, 7, 8),
        pack4(9, 9, 9, 9),
        pack4(9, 9, 9, 9),
    ];
    let mut rep = SumcheckMultilinear::folded(rep_evals);
    rep.update_const_suffix(4, (9, 9));
    match &rep {
        SumcheckMultilinear::Folded { large_field_folded_evals, suffix_eval } => {
            assert_eq!(large_field_folded_evals.len(), 2);
            assert_eq!(*suffix_eval, 9);
        }
        SumcheckMultilinear::Transparent { .. } => panic!("expected a folded value"),
    }
    // The derived suffix length is the lanes the 2 packed elements leave.
    assert_eq!(rep.const_suffix(4), (9, 8));
}

#[test]
fn update_const_suffix_overwrites_transparent_hint() {
    let poly = MultilinPoly::new(vec![0; 8], 3, 0);
    let mut rep = SumcheckMultilinear::transparent(poly, &(|_x: usize| 1usize));
    rep.update_const_suffix(3, (5, 6));
    assert_eq!(rep.const_suffix(3), (5, 6));
}

#[test]
fn constant_tail_survives_a_fold() {
    // A run of six fives over an 8-point domain keeps at least three after
    // one fold; here exactly three survive.
    let table = vec![1, 2, 5, 5, 5, 5, 5, 5];
    let folded = fold_scalars(&table, 3);
    assert_eq!(folded, vec![4, 5, 5, 5]);
    assert_eq!(detect_const_run(&folded), (5, 3));
}

#[test]
fn eq_expansion_partition_of_unity() {
    let expansion = eq_expand(&vec![3, 7]);
    assert_eq!(expansion, vec![12, 10, 14, 9]);
    let mut sum = 0u16;
    for lane in &expansion {
        sum ^= lane;
    }
    assert_eq!(sum, 1);
}

#[test]
fn pack_pads_the_last_element() {
    let packed = pack_scalars(&vec![1, 2, 3, 4, 5], 7);
    assert_eq!(packed.len(), 2);
    assert_eq!(packed[0], pack4(1, 2, 3, 4));
    assert_eq!(packed[1], pack4(5, 7, 7, 7));
}

#[test]
fn eq_expansions_are_cached_once_per_point() {
    let mut memo = MemoizedData::new();
    let first = memo.eq_expansion(&vec![3, 7]);
    let second = memo.eq_expansion(&vec![3, 7]);
    assert_eq!(first, second);
    assert_eq!(memo.entries.len(), 1);
    memo.eq_expansion(&vec![1]);
    assert_eq!(memo.entries.len(), 2);
}
