use plinko::dirty::DirtyRegion;

#[test]
fn none_is_identity() {
    for region in [
        DirtyRegion::NoChange,
        DirtyRegion::All,
        DirtyRegion::BackButtonOnly,
        DirtyRegion::PageOnly,
    ] {
        assert_eq!(DirtyRegion::NoChange.merge(region), region);
        assert_eq!(region.merge(DirtyRegion::NoChange), region);
    }
}

#[test]
fn same_region_is_idempotent() {
    assert_eq!(DirtyRegion::All.merge(DirtyRegion::All), DirtyRegion::All);
    assert_eq!(
        DirtyRegion::PageOnly.merge(DirtyRegion::PageOnly),
        DirtyRegion::PageOnly
    );
    assert_eq!(
        DirtyRegion::BackButtonOnly.merge(DirtyRegion::BackButtonOnly),
        DirtyRegion::BackButtonOnly
    );
}

#[test]
fn different_regions_escalate_to_all() {
    assert_eq!(
        DirtyRegion::PageOnly.merge(DirtyRegion::BackButtonOnly),
        DirtyRegion::All
    );
    assert_eq!(
        DirtyRegion::BackButtonOnly.merge(DirtyRegion::PageOnly),
        DirtyRegion::All
    );
}

#[test]
fn all_absorbs_everything() {
    for region in [
        DirtyRegion::NoChange,
        DirtyRegion::PageOnly,
        DirtyRegion::BackButtonOnly,
    ] {
        assert_eq!(DirtyRegion::All.merge(region), DirtyRegion::All);
        assert_eq!(region.merge(DirtyRegion::All), DirtyRegion::All);
    }
}

#[test]
fn merge_is_commutative_and_associative_on_all_regions() {
    let all = [
        DirtyRegion::NoChange,
        DirtyRegion::All,
        DirtyRegion::BackButtonOnly,
        DirtyRegion::PageOnly,
    ];
    for a in all {
        for b in all {
            assert_eq!(a.merge(b), b.merge(a));
            for c in all {
                assert_eq!(a.merge(b).merge(c), a.merge(b.merge(c)));
            }
        }
    }
}
