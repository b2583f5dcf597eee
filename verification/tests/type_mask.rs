use sorot::type_mask::TypeMask;

#[test]
fn default_is_identity() {
    let m = TypeMask::default();
    assert_eq!(m.bits(), TypeMask::IDENTITY);
    assert!(m.is_identity());
    assert!(m.is_affine());
    assert!(!m.is_translate());
}

#[test]
fn set_accumulates_bits() {
    let mut m = TypeMask::default();
    m.set(TypeMask::TRANSLATE);
    assert!(m.is_translate());
    m.set(TypeMask::SCALE);
    assert_eq!(m.bits(), TypeMask::TRANSLATE | TypeMask::SCALE);
    assert!(!m.is_translate());
    m.set(TypeMask::SCALE);
    assert_eq!(m.bits(), 3);
    m.set(TypeMask::PERSPECTIVE);
    assert!(!m.is_affine());
}

#[test]
fn compute_classifies() {
    assert_eq!(TypeMask::compute(false, false, false, false, false).bits(), 0);
    assert!(TypeMask::compute(false, false, false, true, false).is_translate());
    assert_eq!(TypeMask::compute(false, false, true, true, false).bits(), 3);
    // A pure rotation keeps rectangles rectangular.
    assert_eq!(TypeMask::compute(false, true, false, false, true).bits(), 4 | 16);
    // With translation it is no longer marked so.
    assert_eq!(TypeMask::compute(false, true, false, true, true).bits(), 5);
    // Perspective overrides everything else.
    let p = TypeMask::compute(true, true, true, true, true);
    assert_eq!(p.bits(), TypeMask::PERSPECTIVE | TypeMask::AFFINE);
    assert!(!p.is_affine());
}
