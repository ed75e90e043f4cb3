use sloth_pasta::{pasta_fp, pasta_fq, Fp, Fq};

fn address(text: String) -> usize {
    usize::from_str_radix(text.trim_start_matches("0x"), 16).unwrap()
}

#[test]
fn test_layout_pasta_fp() {
    assert_eq!(
        ::std::mem::size_of::<pasta_fp>(),
        32usize,
        "Size of: pasta_fp"
    );
    assert_eq!(
        ::std::mem::align_of::<pasta_fp>(),
        8usize,
        "Alignment of pasta_fp"
    );
    let v = pasta_fp::default();
    assert_eq!(
        address(format!("{:p}", &v.l)) - address(format!("{:p}", &v)),
        0usize,
        "Offset of field: pasta_fp::l"
    );
}

#[test]
fn test_layout_pasta_fq() {
    assert_eq!(
        ::std::mem::size_of::<pasta_fq>(),
        32usize,
        "Size of: pasta_fq"
    );
    assert_eq!(
        ::std::mem::align_of::<pasta_fq>(),
        8usize,
        "Alignment of pasta_fq"
    );
    let v = pasta_fq::default();
    assert_eq!(
        address(format!("{:p}", &v.l)) - address(format!("{:p}", &v)),
        0usize,
        "Offset of field: pasta_fq::l"
    );
}

#[test]
fn element_is_its_limbs_and_nothing_else() {
    assert_eq!(::std::mem::size_of::<Fp>(), 32usize);
    assert_eq!(::std::mem::align_of::<Fp>(), 8usize);
    assert_eq!(::std::mem::size_of::<Fq>(), 32usize);
    assert_eq!(::std::mem::align_of::<Fq>(), 8usize);
}
