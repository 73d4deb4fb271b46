use issuer_hiding::error::{Error, ProofCheck};
use issuer_hiding::issuer;
use issuer_hiding::katz;
use issuer_hiding::scalar::Scalar;
use issuer_hiding::shigeo;
use issuer_hiding::sigma::Nonces;
use rand::{thread_rng, Rng};

struct KatzScene {
    pp: issuer::PublicParameters,
    ipk: issuer::PublicKey,
    cred: issuer::Signature,
    messages: Vec<Scalar>,
    policy: katz::PolicyKeyPair,
}

fn katz_scene(n: usize, issuers: usize, position: Option<usize>) -> KatzScene {
    let pp = katz::par_gen().unwrap();
    let holder_issuer = katz::issuer_key_gen(&pp).unwrap();
    let messages: Vec<Scalar> = (0..n).map(|_| Scalar::random()).collect();
    let cred = katz::issue(&pp, &holder_issuer.secret_key, &messages).unwrap();
    assert_eq!(katz::verify(&pp, &holder_issuer.public_key, &messages, &cred), Ok(true));
    let mut keys: Vec<issuer::PublicKey> =
        (0..issuers).map(|_| katz::issuer_key_gen(&pp).unwrap().public_key).collect();
    if let Some(p) = position {
        keys[p] = holder_issuer.public_key;
    }
    let policy = katz::set_policy(&pp, &keys).unwrap();
    KatzScene { pp, ipk: holder_issuer.public_key, cred, messages, policy }
}

fn katz_run(s: &KatzScene, reveal: &Vec<usize>) -> (katz::PiKP, katz::PiZKP) {
    katz::present(&s.pp, &s.cred, &s.ipk, &s.messages, reveal, &s.policy.public_key).unwrap()
}

#[test]
fn issuer_hiding_test_issuer_hiding() {
    // The scheme with an aggregate policy.
    {
        let message_len = 10;
        let issuer_num = 10;
        let mut rng = thread_rng();
        let messages: Vec<Scalar> = (0..message_len).map(|_| Scalar::random()).collect();

        let pp = katz::par_gen().unwrap();
        let issuer_keypair = katz::issuer_key_gen(&pp).unwrap();
        let issuer_pk = &issuer_keypair.public_key;

        let signature = katz::issue(&pp, &issuer_keypair.secret_key, &messages).unwrap();

        let is_valid_cred = katz::verify(&pp, &issuer_pk, &messages, &signature);
        assert_eq!(is_valid_cred, Ok(true));

        let mut issuer_keypairs: Vec<issuer::KeyPair> = Vec::new();
        let mut issuer_pubkeys: Vec<issuer::PublicKey> = Vec::new();

        for _ in 0..issuer_num {
            let keypair = katz::issuer_key_gen(&pp).unwrap();
            issuer_pubkeys.push(keypair.public_key.clone());
            issuer_keypairs.push(keypair.clone());
        }

        let r = rng.gen_range(1..issuer_num);
        issuer_keypairs[r] = issuer_keypair.clone();
        issuer_pubkeys[r] = issuer_pk.clone();

        let policy_key_pair = katz::set_policy(&pp, &issuer_pubkeys).unwrap();
        let policy_pk = &policy_key_pair.public_key;

        let is_valid_list = katz::audit_policy(&pp, &policy_pk);
        assert_eq!(is_valid_list, Ok(true));

        let reveal_index = vec![0, 3, 5, 6];
        let (pikp, pizkp) =
            katz::present(&pp, &signature, &issuer_pk, &messages, &reveal_index, &policy_pk).unwrap();

        let is_valid_present = katz::verify_present(&pp, &policy_key_pair, &pikp, &pizkp);
        assert_eq!(is_valid_present, Ok(true));
    }
    // The scheme with a signed trust list.
    {
        let message_len = 10;
        let issuer_num = 10;
        let mut rng = thread_rng();
        let messages: Vec<Scalar> = (0..message_len).map(|_| Scalar::random()).collect();

        let pp = shigeo::par_gen().unwrap();
        let issuer_keypair = shigeo::issuer_key_gen(&pp).unwrap();
        let issuer_pk = &issuer_keypair.public_key;

        let signature = shigeo::issue(&pp, &issuer_keypair.secret_key, &messages).unwrap();

        let is_valid_cred = shigeo::verify(&pp, &issuer_pk, &messages, &signature);
        assert_eq!(is_valid_cred, Ok(true));

        let mut issuer_keypairs: Vec<issuer::KeyPair> = Vec::new();
        let mut issuer_pubkeys: Vec<issuer::PublicKey> = Vec::new();

        for _ in 0..issuer_num {
            let keypair = shigeo::issuer_key_gen(&pp).unwrap();
            issuer_pubkeys.push(keypair.public_key.clone());
            issuer_keypairs.push(keypair.clone());
        }

        let r = rng.gen_range(1..issuer_num);
        issuer_keypairs[r] = issuer_keypair.clone();
        issuer_pubkeys[r] = issuer_pk.clone();

        let verifier_keypair = shigeo::verifier_key_gen(&pp).unwrap();

        let list = shigeo::issue_list(&pp, &verifier_keypair, &issuer_pubkeys).unwrap();

        let is_valid_list = shigeo::verify_list(&pp, &list);
        assert_eq!(is_valid_list, Ok(true));

        let reveal_index = vec![0, 3, 5, 6];
        let (pikp, pizkp) =
            shigeo::present(&pp, &signature, &issuer_pk, &messages, &reveal_index, &list).unwrap();

        let is_valid_presentation = shigeo::verify_presentation(&pp, &list, &pikp, &pizkp);
        assert_eq!(is_valid_presentation, Ok(true));
    }
}

#[test]
fn katz_happy_path_small() {
    let s = katz_scene(5, 5, Some(2));
    assert_eq!(katz::audit_policy(&s.pp, &s.policy.public_key), Ok(true));
    let (kp, zkp) = katz_run(&s, &vec![0, 2]);
    assert_eq!(kp.message_list[1].to_bytes(), s.messages[2].to_bytes());
    assert_eq!(zkp.v.len(), 3);
    assert_eq!(katz::verify_present(&s.pp, &s.policy, &kp, &zkp), Ok(true));
}

#[test]
fn katz_no_disclosure() {
    let s = katz_scene(10, 10, Some(4));
    let (kp, zkp) = katz_run(&s, &vec![]);
    assert_eq!(katz::verify_present(&s.pp, &s.policy, &kp, &zkp), Ok(true));
}

#[test]
fn katz_all_disclosure() {
    let s = katz_scene(10, 10, Some(9));
    let (kp, zkp) = katz_run(&s, &(0..10).collect());
    assert_eq!(katz::verify_present(&s.pp, &s.policy, &kp, &zkp), Ok(true));
}

#[test]
fn katz_tampered_disclosure() {
    let s = katz_scene(5, 5, Some(2));
    let (mut kp, zkp) = katz_run(&s, &vec![0, 2]);
    kp.message_list[0] = Scalar::from_u64(7);
    assert_eq!(
        katz::verify_present(&s.pp, &s.policy, &kp, &zkp),
        Err(Error::ProofVerificationFailed(ProofCheck::Challenge))
    );
}

#[test]
fn katz_out_of_list_issuer() {
    let s = katz_scene(5, 5, None);
    let (kp, zkp) = katz_run(&s, &vec![4]);
    assert_eq!(
        katz::verify_present(&s.pp, &s.policy, &kp, &zkp),
        Err(Error::ProofVerificationFailed(ProofCheck::PolicyBinding))
    );
}

#[test]
fn katz_large_list() {
    let position = thread_rng().gen_range(0..1000);
    let s = katz_scene(20, 1000, Some(position));
    let (kp, zkp) = katz_run(&s, &vec![3, 11, 19]);
    assert_eq!(katz::verify_present(&s.pp, &s.policy, &kp, &zkp), Ok(true));
}

#[test]
fn katz_single_issuer_policy() {
    let s = katz_scene(3, 1, Some(0));
    assert_eq!(katz::audit_policy(&s.pp, &s.policy.public_key), Ok(true));
    let (kp, zkp) = katz_run(&s, &vec![1]);
    assert_eq!(katz::verify_present(&s.pp, &s.policy, &kp, &zkp), Ok(true));
}

#[test]
fn katz_policy_is_audited() {
    let s = katz_scene(2, 4, Some(1));
    let mut forged = s.policy.public_key.clone();
    forged.t[2] = forged.t[3];
    assert_eq!(
        katz::audit_policy(&s.pp, &forged),
        Err(Error::ProofVerificationFailed(ProofCheck::Challenge))
    );
    let mut forged = s.policy.public_key.clone();
    forged.pi.s = Scalar::from_u64(3);
    assert_eq!(
        katz::audit_policy(&s.pp, &forged),
        Err(Error::ProofVerificationFailed(ProofCheck::Challenge))
    );
    let mut short = s.policy.public_key.clone();
    short.t.pop();
    assert_eq!(katz::audit_policy(&s.pp, &short), Err(Error::InvalidParameter));
    assert_eq!(katz::set_policy(&s.pp, &Vec::new()).err(), Some(Error::InvalidParameter));
}

#[test]
fn katz_policy_from_given_scalars() {
    let pp = katz::par_gen().unwrap();
    let keys: Vec<issuer::PublicKey> = (0..3).map(|_| katz::issuer_key_gen(&pp).unwrap().public_key).collect();
    let nonces = katz::PolicyNonces {
        a: Scalar::from_u64(5),
        b: Scalar::from_u64(6),
        alpha: Scalar::from_u64(7),
        beta: Scalar::from_u64(8),
    };
    let first = katz::set_policy_with(&pp, &keys, &nonces).unwrap();
    let second = katz::set_policy_with(&pp, &keys, &nonces).unwrap();
    assert_eq!(first.public_key.s.to_bytes(), second.public_key.s.to_bytes());
    assert_eq!(first.public_key.t[2].to_bytes(), second.public_key.t[2].to_bytes());
    assert_eq!(first.public_key.pi.c.to_bytes(), second.public_key.pi.c.to_bytes());
    assert_eq!(first.secret_key.a.to_bytes(), Scalar::from_u64(5).to_bytes());
    assert_eq!(katz::audit_policy(&pp, &first.public_key), Ok(true));
    let zero = katz::PolicyNonces { a: Scalar::from_u64(0), ..nonces };
    assert_eq!(katz::set_policy_with(&pp, &keys, &zero).err(), Some(Error::RandomnessFailure));
}

#[test]
fn katz_presentation_from_given_scalars() {
    let s = katz_scene(3, 2, Some(1));
    let blinding = katz::Blinding {
        r: Scalar::from_u64(2),
        nonces: Nonces {
            r1: Scalar::from_u64(3),
            r2: Scalar::from_u64(4),
            alpha: Scalar::from_u64(5),
            beta: Scalar::from_u64(6),
            gamma: Scalar::from_u64(7),
            delta: vec![Scalar::from_u64(8), Scalar::from_u64(9)],
        },
    };
    let reveal = vec![1];
    let ppk = &s.policy.public_key;
    let (kp1, zkp1) = katz::present_with(&s.pp, &s.cred, &s.ipk, &s.messages, &reveal, ppk, &blinding).unwrap();
    let (kp2, zkp2) = katz::present_with(&s.pp, &s.cred, &s.ipk, &s.messages, &reveal, ppk, &blinding).unwrap();
    assert_eq!(kp1.a_bar.to_bytes(), kp2.a_bar.to_bytes());
    assert_eq!(kp1.sigma_tilde.to_bytes(), kp2.sigma_tilde.to_bytes());
    assert_eq!(zkp1.c.to_bytes(), zkp2.c.to_bytes());
    assert_eq!(zkp1.v[0].to_bytes(), zkp2.v[0].to_bytes());
    assert_eq!(katz::verify_present(&s.pp, &s.policy, &kp1, &zkp1), Ok(true));
    let mut kp3 = kp1.clone();
    kp3.a_bar = kp1.b_bar;
    assert_eq!(
        katz::verify_present(&s.pp, &s.policy, &kp3, &zkp1),
        Err(Error::ProofVerificationFailed(ProofCheck::Challenge))
    );
    let mut kp4 = kp1.clone();
    kp4.sigma_tilde = ppk.s;
    assert_eq!(
        katz::verify_present(&s.pp, &s.policy, &kp4, &zkp1),
        Err(Error::ProofVerificationFailed(ProofCheck::PolicyBinding))
    );
    let mut bad_key = s.policy.clone();
    bad_key.secret_key.a = Scalar::from_u64(0);
    assert_eq!(katz::verify_present(&s.pp, &bad_key, &kp1, &zkp1), Err(Error::InvalidKey));
    assert_eq!(
        katz::present(&s.pp, &s.cred, &s.ipk, &s.messages, &vec![5], ppk).err(),
        Some(Error::InvalidParameter)
    );
}

#[test]
fn katz_issuer_listed_twice_is_rejected() {
    let pp = katz::par_gen().unwrap();
    let holder_issuer = katz::issuer_key_gen(&pp).unwrap();
    let messages: Vec<Scalar> = (0..4).map(|_| Scalar::random()).collect();
    let cred = katz::issue(&pp, &holder_issuer.secret_key, &messages).unwrap();
    let mut keys: Vec<issuer::PublicKey> = (0..4).map(|_| katz::issuer_key_gen(&pp).unwrap().public_key).collect();
    keys[0] = holder_issuer.public_key;
    keys[2] = holder_issuer.public_key;
    let policy = katz::set_policy(&pp, &keys).unwrap();
    assert_eq!(katz::audit_policy(&pp, &policy.public_key), Ok(true));
    let (kp, zkp) =
        katz::present(&pp, &cred, &holder_issuer.public_key, &messages, &vec![1], &policy.public_key).unwrap();
    assert_eq!(
        katz::verify_present(&pp, &policy, &kp, &zkp),
        Err(Error::ProofVerificationFailed(ProofCheck::PolicyBinding))
    );
}

#[test]
fn katz_indices_in_any_order() {
    let pp = katz::par_gen().unwrap();
    let holder_issuer = katz::issuer_key_gen(&pp).unwrap();
    let messages: Vec<Scalar> = [10u64, 20, 30, 40, 50].iter().map(|v| Scalar::from_u64(*v)).collect();
    let cred = katz::issue(&pp, &holder_issuer.secret_key, &messages).unwrap();
    let other = katz::issuer_key_gen(&pp).unwrap();
    let policy = katz::set_policy(&pp, &vec![holder_issuer.public_key, other.public_key]).unwrap();
    let (kp, zkp) =
        katz::present(&pp, &cred, &holder_issuer.public_key, &messages, &vec![2, 0], &policy.public_key).unwrap();
    assert_eq!(kp.open, vec![0, 2]);
    assert_eq!(kp.message_list.len(), 2);
    assert_eq!(kp.message_list[0].to_bytes(), Scalar::from_u64(10).to_bytes());
    assert_eq!(kp.message_list[1].to_bytes(), Scalar::from_u64(30).to_bytes());
    assert_eq!(zkp.v.len(), 3);
    assert_eq!(katz::verify_present(&pp, &policy, &kp, &zkp), Ok(true));
    assert_eq!(
        katz::present(&pp, &cred, &holder_issuer.public_key, &messages, &vec![2, 2], &policy.public_key).err(),
        Some(Error::InvalidParameter)
    );
    assert_eq!(
        katz::present(&pp, &cred, &holder_issuer.public_key, &messages, &vec![0, 5], &policy.public_key).err(),
        Some(Error::InvalidParameter)
    );
    // nothing hidden: no responses for hidden attributes
    let all: Vec<usize> = vec![4, 3, 2, 1, 0];
    let (kp, zkp) =
        katz::present(&pp, &cred, &holder_issuer.public_key, &messages, &all, &policy.public_key).unwrap();
    assert_eq!(kp.open, vec![0, 1, 2, 3, 4]);
    assert_eq!(zkp.v.len(), 0);
    assert_eq!(katz::verify_present(&pp, &policy, &kp, &zkp), Ok(true));
}

#[test]
fn katz_set_policy_refuses_identity_key() {
    let pp = katz::par_gen().unwrap();
    let listed = katz::issuer_key_gen(&pp).unwrap().public_key;
    let mut encoding = [0u8; 96];
    encoding[0] = 0xc0;
    let identity = issuer::PublicKey(issuer_hiding::group::G2::from_bytes(&encoding).unwrap());
    assert_eq!(katz::set_policy(&pp, &vec![listed, identity]).err(), Some(Error::InvalidKey));
    assert_eq!(katz::set_policy(&pp, &Vec::new()).err(), Some(Error::InvalidParameter));
    let policy = katz::set_policy(&pp, &vec![listed]).unwrap();
    assert!(!policy.secret_key.a.is_zero());
    assert!(!policy.public_key.s.is_identity());
}
