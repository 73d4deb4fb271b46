use issuer_hiding::bbs;

#[test]
fn bbs_it_works() {
    let pp = bbs::par_gen();
    println!("{:?}", pp);
    let pp = pp.unwrap();
    assert_ne!(pp.g1.to_bytes(), pp.gbar1.to_bytes());
    assert_ne!(pp.g2.to_bytes(), pp.gbar2.to_bytes());
    assert_eq!(pp.g1.to_bytes()[0], 0x97);
    assert_eq!(pp.g2.to_bytes()[0], 0x93);
    assert_eq!(pp.q1.to_bytes()[0], 0xa9);
}

#[test]
fn derived_generators_differ_and_none_is_the_identity() {
    let issuer = issuer_hiding::issuer::par_gen().unwrap();
    assert!(!issuer.g1.is_identity());
    assert!(!issuer.g2.is_identity());
    for i in 0..issuer.h_vec.len() {
        assert!(!issuer.h_vec[i].is_identity());
        assert!(!issuer.h_vec[i].same(&issuer.g1));
    }
    assert!(issuer_hiding::setup::check_distinct_g1(&issuer.h_vec));
    let twice = vec![issuer.g1, issuer.h_vec[3], issuer.g1];
    assert!(!issuer_hiding::setup::check_distinct_g1(&twice));
    let with_identity = vec![issuer.g2, issuer_hiding::group::G2::from_bytes(&{
        let mut bytes = [0u8; 96];
        bytes[0] = 0xc0;
        bytes
    })
    .unwrap()];
    assert!(with_identity[1].is_identity());
    assert!(!issuer_hiding::setup::check_distinct_g2(&with_identity));
    assert!(issuer_hiding::setup::check_distinct_g2(&vec![issuer.g2]));
    assert!(issuer_hiding::bobolz::par_gen().is_ok());
    assert!(issuer_hiding::groth::par_gen().is_ok());
    assert!(issuer_hiding::groth1::par_gen().is_ok());
    assert!(issuer_hiding::groth2::par_gen().is_ok());
    assert!(issuer_hiding::ps::par_gen().is_ok());
    assert!(issuer_hiding::sanders::par_gen().is_ok());
    assert!(issuer_hiding::shigeo::par_gen().is_ok());
    assert!(issuer_hiding::katz::par_gen().is_ok());
    assert!(issuer_hiding::verifier_bbs::par_gen().is_ok());
    let sanders = issuer_hiding::sanders::par_gen().unwrap();
    let again = issuer_hiding::sanders::par_gen().unwrap();
    assert_eq!(sanders.x1.to_bytes(), again.x1.to_bytes());
    assert_ne!(sanders.x1.to_bytes(), sanders.g1.to_bytes());
}
