use issuer_hiding::bbs;
use issuer_hiding::error::{Error, ProofCheck};
use issuer_hiding::issuer;
use issuer_hiding::scalar::Scalar;
use issuer_hiding::shigeo::{
    issue, issue_list, issuer_key_gen, par_gen, present, present_with, verifier_key_gen, verify, verify_list,
    verify_presentation, Blinding, PiKP, PiZKP, TrustedIssuerCredential,
};
use issuer_hiding::verifier_bbs;
use rand::{thread_rng, Rng};

fn attributes(n: usize) -> Vec<Scalar> {
    (0..n).map(|_| Scalar::random()).collect()
}

struct Scene {
    pp: bbs::PublicParameters,
    ipk: issuer::PublicKey,
    cred: issuer::Signature,
    messages: Vec<Scalar>,
    policy: (verifier_bbs::PublicKey, Vec<TrustedIssuerCredential>),
}

fn scene(n: usize, issuers: usize, position: Option<usize>) -> Scene {
    let pp = par_gen().unwrap();
    let holder_issuer = issuer_key_gen(&pp).unwrap();
    let messages = attributes(n);
    let cred = issue(&pp, &holder_issuer.secret_key, &messages).unwrap();
    assert_eq!(verify(&pp, &holder_issuer.public_key, &messages, &cred), Ok(true));
    let mut keys: Vec<issuer::PublicKey> = (0..issuers).map(|_| issuer_key_gen(&pp).unwrap().public_key).collect();
    if let Some(p) = position {
        keys[p] = holder_issuer.public_key;
    }
    let verifier = verifier_key_gen(&pp).unwrap();
    let policy = issue_list(&pp, &verifier, &keys).unwrap();
    Scene { pp, ipk: holder_issuer.public_key, cred, messages, policy }
}

fn run(s: &Scene, reveal: &Vec<usize>) -> (PiKP, PiZKP) {
    present(&s.pp, &s.cred, &s.ipk, &s.messages, reveal, &s.policy).unwrap()
}

#[test]
fn shigeo_happy_path_small() {
    let s = scene(5, 5, Some(2));
    assert_eq!(verify_list(&s.pp, &s.policy), Ok(true));
    let (kp, zkp) = run(&s, &vec![0, 2]);
    assert_eq!(kp.len, 5);
    assert_eq!(kp.open, vec![0, 2]);
    assert_eq!(kp.message_list.len(), 2);
    assert_eq!(kp.message_list[0].to_bytes(), s.messages[0].to_bytes());
    assert_eq!(kp.message_list[1].to_bytes(), s.messages[2].to_bytes());
    assert_eq!(zkp.v1.len(), 3);
    assert_eq!(verify_presentation(&s.pp, &s.policy, &kp, &zkp), Ok(true));
}

#[test]
fn shigeo_no_disclosure() {
    let s = scene(10, 10, Some(7));
    let (kp, zkp) = run(&s, &vec![]);
    assert_eq!(zkp.v1.len(), 10);
    assert_eq!(verify_presentation(&s.pp, &s.policy, &kp, &zkp), Ok(true));
}

#[test]
fn shigeo_all_disclosure() {
    let s = scene(10, 10, Some(0));
    let (kp, zkp) = run(&s, &(0..10).collect());
    assert_eq!(zkp.v1.len(), 0);
    assert_eq!(verify_presentation(&s.pp, &s.policy, &kp, &zkp), Ok(true));
}

#[test]
fn shigeo_tampered_disclosure() {
    let s = scene(5, 5, Some(2));
    let (mut kp, zkp) = run(&s, &vec![0, 2]);
    kp.message_list[1] = Scalar::from_u64(42);
    assert_eq!(
        verify_presentation(&s.pp, &s.policy, &kp, &zkp),
        Err(Error::ProofVerificationFailed(ProofCheck::Challenge))
    );
}

#[test]
fn shigeo_out_of_list_issuer() {
    let s = scene(5, 5, None);
    let (kp, zkp) = run(&s, &vec![1, 3]);
    assert_eq!(
        verify_presentation(&s.pp, &s.policy, &kp, &zkp),
        Err(Error::ProofVerificationFailed(ProofCheck::PolicyBinding))
    );
}

#[test]
fn shigeo_large_list() {
    let position = thread_rng().gen_range(0..1000);
    let s = scene(20, 1000, Some(position));
    let (kp, zkp) = run(&s, &vec![3, 11, 19]);
    assert_eq!(verify_presentation(&s.pp, &s.policy, &kp, &zkp), Ok(true));
}

#[test]
fn shigeo_selective_disclosure_boundary() {
    for n in [1usize, 2, 5, 10, 50] {
        let s = scene(n, 2, Some(1));
        let (kp, zkp) = run(&s, &vec![]);
        assert_eq!(verify_presentation(&s.pp, &s.policy, &kp, &zkp), Ok(true));
        let (kp, zkp) = run(&s, &(0..n).collect());
        assert_eq!(verify_presentation(&s.pp, &s.policy, &kp, &zkp), Ok(true));
    }
}

#[test]
fn shigeo_rejects_bad_requests() {
    let s = scene(3, 2, Some(0));
    let present_err = |reveal: Vec<usize>| present(&s.pp, &s.cred, &s.ipk, &s.messages, &reveal, &s.policy).err();
    assert_eq!(present_err(vec![3]), Some(Error::InvalidParameter));
    assert_eq!(present_err(vec![1, 1]), Some(Error::InvalidParameter));
    assert_eq!(present_err(vec![2, 0, 2]), Some(Error::InvalidParameter));
    let empty: Vec<Scalar> = Vec::new();
    assert_eq!(issue(&s.pp, &bbs::SecretKey(Scalar::from_u64(5)), &empty).err(), Some(Error::InvalidParameter));
    assert_eq!(
        issue(&s.pp, &bbs::SecretKey(Scalar::from_u64(5)), &attributes(51)).err(),
        Some(Error::InvalidParameter)
    );
    assert_eq!(issue(&s.pp, &bbs::SecretKey(Scalar::from_u64(0)), &attributes(2)).err(), Some(Error::InvalidKey));
    let verifier = verifier_key_gen(&s.pp).unwrap();
    assert_eq!(issue_list(&s.pp, &verifier, &Vec::new()).err(), Some(Error::InvalidParameter));
    let no_list = (s.policy.0, Vec::new());
    assert_eq!(verify_list(&s.pp, &no_list), Err(Error::InvalidParameter));
    assert_eq!(
        present(&s.pp, &s.cred, &s.ipk, &s.messages, &vec![0], &no_list).err(),
        Some(Error::InvalidParameter)
    );
}

#[test]
fn shigeo_same_randomness_same_presentation() {
    let s = scene(4, 3, Some(1));
    let blinding = Blinding {
        r: Scalar::from_u64(11),
        r_1: Scalar::from_u64(12),
        r_2: Scalar::from_u64(13),
        r_3: Scalar::from_u64(14),
        alpha1: Scalar::from_u64(15),
        alpha2: Scalar::from_u64(16),
        beta1: Scalar::from_u64(17),
        beta2: Scalar::from_u64(18),
        gamma1: Scalar::from_u64(19),
        gamma2: Scalar::from_u64(20),
        delta1: vec![Scalar::from_u64(21), Scalar::from_u64(22)],
        delta2: Scalar::from_u64(23),
    };
    let reveal = vec![0, 3];
    let (kp1, zkp1) = present_with(&s.pp, &s.cred, &s.ipk, &s.messages, &reveal, &s.policy, &blinding).unwrap();
    let (kp2, zkp2) = present_with(&s.pp, &s.cred, &s.ipk, &s.messages, &reveal, &s.policy, &blinding).unwrap();
    assert_eq!(kp1.a_bar1.to_bytes(), kp2.a_bar1.to_bytes());
    assert_eq!(kp1.c.to_bytes(), kp2.c.to_bytes());
    assert_eq!(zkp1.s1.to_bytes(), zkp2.s1.to_bytes());
    assert_eq!(zkp1.v1[1].to_bytes(), zkp2.v1[1].to_bytes());
    assert_eq!(verify_presentation(&s.pp, &s.policy, &kp1, &zkp1), Ok(true));
    let (kp3, _) = run(&s, &reveal);
    let (kp4, _) = run(&s, &reveal);
    assert_ne!(kp3.a_bar1.to_bytes(), kp4.a_bar1.to_bytes());
    assert_ne!(kp3.c.to_bytes(), kp4.c.to_bytes());
    let mut short = blinding.clone();
    short.delta1.pop();
    assert_eq!(
        present_with(&s.pp, &s.cred, &s.ipk, &s.messages, &reveal, &s.policy, &short).err(),
        Some(Error::InvalidParameter)
    );
    let mut zero = blinding.clone();
    zero.r_2 = Scalar::from_u64(0);
    assert_eq!(
        present_with(&s.pp, &s.cred, &s.ipk, &s.messages, &reveal, &s.policy, &zero).err(),
        Some(Error::RandomnessFailure)
    );
}

#[test]
fn shigeo_altered_points_fail() {
    let s = scene(4, 3, Some(1));
    let (kp, zkp) = run(&s, &vec![1]);
    let mut bad = kp.clone();
    bad.u_1 = kp.u_2;
    // The challenge binds every commitment, so this is caught first.
    assert_eq!(
        verify_presentation(&s.pp, &s.policy, &bad, &zkp),
        Err(Error::ProofVerificationFailed(ProofCheck::Challenge))
    );
    let mut bad = zkp.clone();
    bad.s1 = Scalar::from_u64(1);
    assert_eq!(
        verify_presentation(&s.pp, &s.policy, &kp, &bad),
        Err(Error::ProofVerificationFailed(ProofCheck::FirstCommitment))
    );
    let mut bad = zkp.clone();
    bad.z1 = Scalar::from_u64(1);
    assert_eq!(
        verify_presentation(&s.pp, &s.policy, &kp, &bad),
        Err(Error::ProofVerificationFailed(ProofCheck::SecondCommitment))
    );
    let mut bad = zkp.clone();
    bad.v2 = Scalar::from_u64(1);
    assert_eq!(
        verify_presentation(&s.pp, &s.policy, &kp, &bad),
        Err(Error::ProofVerificationFailed(ProofCheck::PolicyBinding))
    );
    let mut bad = zkp.clone();
    bad.v1.pop();
    assert_eq!(verify_presentation(&s.pp, &s.policy, &kp, &bad), Err(Error::InvalidParameter));
}

#[test]
fn shigeo_list_with_foreign_signature_is_rejected() {
    let s = scene(2, 3, Some(1));
    let other = verifier_key_gen(&s.pp).unwrap();
    let wrong = (other.public_key, s.policy.1.clone());
    assert_eq!(verify_list(&s.pp, &wrong), Err(Error::SignatureVerificationFailed));
    let mut swapped = s.policy.clone();
    let first = swapped.1[0].cred;
    swapped.1[0].cred = swapped.1[1].cred;
    swapped.1[1].cred = first;
    assert_eq!(verify_list(&s.pp, &swapped), Err(Error::SignatureVerificationFailed));
}

#[test]
fn shigeo_indices_in_any_order() {
    let pp = par_gen().unwrap();
    let holder_issuer = issuer_key_gen(&pp).unwrap();
    let messages: Vec<Scalar> = [10u64, 20, 30, 40, 50].iter().map(|v| Scalar::from_u64(*v)).collect();
    let cred = issue(&pp, &holder_issuer.secret_key, &messages).unwrap();
    let verifier = verifier_key_gen(&pp).unwrap();
    let other = issuer_key_gen(&pp).unwrap();
    let policy = issue_list(&pp, &verifier, &vec![other.public_key, holder_issuer.public_key]).unwrap();
    let (kp, zkp) = present(&pp, &cred, &holder_issuer.public_key, &messages, &vec![2, 0], &policy).unwrap();
    assert_eq!(kp.open, vec![0, 2]);
    assert_eq!(kp.message_list.len(), 2);
    assert_eq!(kp.message_list[0].to_bytes(), Scalar::from_u64(10).to_bytes());
    assert_eq!(kp.message_list[1].to_bytes(), Scalar::from_u64(30).to_bytes());
    assert_eq!(zkp.v1.len(), 3);
    assert_eq!(verify_presentation(&pp, &policy, &kp, &zkp), Ok(true));
    // a proof whose index list is not sorted is refused
    let mut swapped = kp.clone();
    swapped.open = vec![2, 0];
    assert_eq!(verify_presentation(&pp, &policy, &swapped, &zkp), Err(Error::InvalidParameter));
}

#[test]
fn shigeo_issue_list_refuses_identity_key() {
    let pp = par_gen().unwrap();
    let verifier = verifier_key_gen(&pp).unwrap();
    let listed = issuer_key_gen(&pp).unwrap().public_key;
    let mut encoding = [0u8; 96];
    encoding[0] = 0xc0;
    let identity = issuer::PublicKey(issuer_hiding::group::G2::from_bytes(&encoding).unwrap());
    assert!(identity.0.is_identity());
    assert_eq!(issue_list(&pp, &verifier, &vec![listed, identity]).err(), Some(Error::InvalidKey));
    assert_eq!(issue_list(&pp, &verifier, &vec![identity]).err(), Some(Error::InvalidKey));
    assert!(issue_list(&pp, &verifier, &vec![listed]).is_ok());
}
