use issuer_hiding::bobolz::{
    issue, issue_list, issuer_key_gen, par_gen, present, present_with, verifier_key_gen, verify, verify_list,
    verify_present, Blinding, PiKP, PiZKP, PublicParameters, TrustedIssuerCredential,
};
use issuer_hiding::error::{Error, ProofCheck};
use issuer_hiding::groth::SecretKey;
use issuer_hiding::groth1;
use issuer_hiding::groth2;
use issuer_hiding::scalar::Scalar;

struct Scene {
    pp: PublicParameters,
    ipk: groth1::PublicKey,
    cred: groth1::Signature,
    messages: Vec<Scalar>,
    policy: (groth2::PublicKey, Vec<TrustedIssuerCredential>),
}

fn scene(n: usize, issuers: usize, position: Option<usize>) -> Scene {
    let pp = par_gen().unwrap();
    let holder_issuer = issuer_key_gen(&pp).unwrap();
    let messages: Vec<Scalar> = (0..n).map(|_| Scalar::random()).collect();
    let cred = issue(&pp, &holder_issuer.secret_key, &messages).unwrap();
    assert_eq!(verify(&pp, &cred, &messages, &holder_issuer.public_key), Ok(true));
    let mut keys: Vec<groth1::PublicKey> = (0..issuers).map(|_| issuer_key_gen(&pp).unwrap().public_key).collect();
    if let Some(p) = position {
        keys[p] = holder_issuer.public_key;
    }
    let verifier = verifier_key_gen(&pp).unwrap();
    let policy = issue_list(&pp, &keys, &verifier).unwrap();
    Scene { pp, ipk: holder_issuer.public_key, cred, messages, policy }
}

fn run(s: &Scene, reveal: &Vec<usize>) -> (PiKP, PiZKP) {
    present(&s.pp, &s.cred, &s.ipk, &s.messages, &s.policy, reveal).unwrap()
}

#[test]
fn bobolz_happy_path_small() {
    let s = scene(5, 5, Some(2));
    assert_eq!(verify_list(&s.pp, &s.policy), Ok(true));
    let pt = run(&s, &vec![0, 2]);
    assert_eq!(pt.0.message_list[1].to_bytes(), s.messages[2].to_bytes());
    assert_eq!(pt.1.z5.len(), 3);
    assert_eq!(verify_present(&s.pp, &s.policy, &pt), Ok(true));
}

#[test]
fn bobolz_no_disclosure() {
    let s = scene(10, 10, Some(3));
    let pt = run(&s, &vec![]);
    assert_eq!(verify_present(&s.pp, &s.policy, &pt), Ok(true));
}

#[test]
fn bobolz_all_disclosure() {
    let s = scene(10, 10, Some(3));
    let pt = run(&s, &(0..10).collect());
    assert_eq!(pt.1.z5.len(), 0);
    assert_eq!(verify_present(&s.pp, &s.policy, &pt), Ok(true));
}

#[test]
fn bobolz_tampered_disclosure() {
    let s = scene(5, 5, Some(2));
    let mut pt = run(&s, &vec![0, 2]);
    pt.0.message_list[0] = Scalar::from_u64(1);
    assert_eq!(
        verify_present(&s.pp, &s.policy, &pt),
        Err(Error::ProofVerificationFailed(ProofCheck::Challenge))
    );
}

#[test]
fn bobolz_out_of_list_issuer() {
    let s = scene(5, 5, None);
    let pt = run(&s, &vec![0, 2]);
    assert_eq!(
        verify_present(&s.pp, &s.policy, &pt),
        Err(Error::ProofVerificationFailed(ProofCheck::PolicyBinding))
    );
}

#[test]
fn bobolz_foreign_verifier_key_is_rejected() {
    let s = scene(3, 2, Some(1));
    let pt = run(&s, &vec![1]);
    let other = verifier_key_gen(&s.pp).unwrap();
    let foreign = (other.public_key, s.policy.1.clone());
    let outcome = verify_present(&s.pp, &foreign, &pt);
    assert_eq!(outcome, Err(Error::ProofVerificationFailed(ProofCheck::PolicyBinding)));
    assert_eq!(verify_list(&s.pp, &foreign), Err(Error::SignatureVerificationFailed));
}

#[test]
fn bobolz_rejects_bad_requests() {
    let s = scene(3, 2, Some(0));
    let err = |reveal: Vec<usize>| present(&s.pp, &s.cred, &s.ipk, &s.messages, &s.policy, &reveal).err();
    assert_eq!(err(vec![3]), Some(Error::InvalidParameter));
    assert_eq!(err(vec![1, 1]), Some(Error::InvalidParameter));
    assert_eq!(err(vec![0, 2, 0]), Some(Error::InvalidParameter));
    assert_eq!(issue(&s.pp, &SecretKey(Scalar::from_u64(1)), &Vec::new()).err(), Some(Error::InvalidParameter));
    assert_eq!(
        issue(&s.pp, &SecretKey(Scalar::from_u64(0)), &vec![Scalar::from_u64(1)]).err(),
        Some(Error::InvalidKey)
    );
    let verifier = verifier_key_gen(&s.pp).unwrap();
    assert_eq!(issue_list(&s.pp, &Vec::new(), &verifier).err(), Some(Error::InvalidParameter));
    let mut pt = run(&s, &vec![0]);
    pt.1.z5.pop();
    assert_eq!(verify_present(&s.pp, &s.policy, &pt), Err(Error::InvalidParameter));
}

#[test]
fn bobolz_presentation_from_given_scalars() {
    let s = scene(3, 2, Some(1));
    let b = Blinding {
        rho1: Scalar::from_u64(2),
        rho2: Scalar::from_u64(3),
        alpha: Scalar::from_u64(4),
        beta: Scalar::from_u64(5),
        gamma: Scalar::from_u64(6),
        delta: Scalar::from_u64(7),
        r1: Scalar::from_u64(8),
        r2: Scalar::from_u64(9),
        r3: Scalar::from_u64(10),
        r4: Scalar::from_u64(11),
        r5: vec![Scalar::from_u64(12)],
    };
    let reveal = vec![0, 2];
    let first = present_with(&s.pp, &s.cred, &s.ipk, &s.messages, &s.policy, &reveal, &b).unwrap();
    let second = present_with(&s.pp, &s.cred, &s.ipk, &s.messages, &s.policy, &reveal, &b).unwrap();
    assert_eq!(first.0.blind_cred.s1.to_bytes(), second.0.blind_cred.s1.to_bytes());
    assert_eq!(first.1.c.to_bytes(), second.1.c.to_bytes());
    assert_eq!(first.1.z5[0].to_bytes(), second.1.z5[0].to_bytes());
    assert_eq!(verify_present(&s.pp, &s.policy, &first), Ok(true));
    let zero = Blinding { gamma: Scalar::from_u64(0), ..b.clone() };
    assert_eq!(
        present_with(&s.pp, &s.cred, &s.ipk, &s.messages, &s.policy, &reveal, &zero).err(),
        Some(Error::RandomnessFailure)
    );
}

#[test]
fn bobolz_indices_in_any_order() {
    let s = scene(5, 3, Some(1));
    let pt = run(&s, &vec![2, 0]);
    assert_eq!(pt.0.open, vec![0, 2]);
    assert_eq!(pt.0.message_list.len(), 2);
    assert_eq!(pt.0.message_list[0].to_bytes(), s.messages[0].to_bytes());
    assert_eq!(pt.0.message_list[1].to_bytes(), s.messages[2].to_bytes());
    assert_eq!(pt.1.z5.len(), 3);
    assert_eq!(verify_present(&s.pp, &s.policy, &pt), Ok(true));
    // a proof whose index list is not sorted is refused
    let mut swapped = run(&s, &vec![0, 2]);
    swapped.0.open = vec![2, 0];
    assert_eq!(verify_present(&s.pp, &s.policy, &swapped), Err(Error::InvalidParameter));
}

#[test]
fn bobolz_issue_list_refuses_identity_key() {
    let s = scene(2, 2, Some(0));
    let verifier = verifier_key_gen(&s.pp).unwrap();
    let mut encoding = [0u8; 96];
    encoding[0] = 0xc0;
    let identity = issuer_hiding::groth1::PublicKey(issuer_hiding::group::G2::from_bytes(&encoding).unwrap());
    assert!(identity.0.is_identity());
    assert_eq!(issue_list(&s.pp, &vec![s.ipk, identity], &verifier).err(), Some(Error::InvalidKey));
    assert!(issue_list(&s.pp, &vec![s.ipk], &verifier).is_ok());
}

#[test]
fn bobolz_altered_responses_fail_at_their_check() {
    let s = scene(4, 3, Some(2));
    let honest = run(&s, &vec![1]);
    assert_eq!(verify_present(&s.pp, &s.policy, &honest), Ok(true));
    let mut pt = honest.clone();
    pt.1.z1 = Scalar::from_u64(5);
    assert_eq!(
        verify_present(&s.pp, &s.policy, &pt),
        Err(Error::ProofVerificationFailed(ProofCheck::FirstCommitment))
    );
    let mut pt = honest.clone();
    pt.1.z2 = Scalar::from_u64(5);
    assert_eq!(
        verify_present(&s.pp, &s.policy, &pt),
        Err(Error::ProofVerificationFailed(ProofCheck::SecondCommitment))
    );
    let mut pt = honest.clone();
    pt.1.z4 = Scalar::from_u64(5);
    assert_eq!(
        verify_present(&s.pp, &s.policy, &pt),
        Err(Error::ProofVerificationFailed(ProofCheck::PolicyBinding))
    );
    let mut pt = honest.clone();
    pt.0.u_3 = honest.0.u_1;
    assert_eq!(
        verify_present(&s.pp, &s.policy, &pt),
        Err(Error::ProofVerificationFailed(ProofCheck::Challenge))
    );
}
