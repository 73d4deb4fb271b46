use issuer_hiding::error::{Error, ProofCheck};
use issuer_hiding::ps;
use issuer_hiding::sanders::{
    audit_policy, create_proof, create_proof_with, key_gen, par_gen, set_policy, set_policy_with, sign, sign_with,
    verify_proof, verify_sign, Blinding, PolicyKeyPair, PolicyNonces, PolicyProof, PublicKey, PublicParameters,
    SecretKey, Signature,
};
use issuer_hiding::scalar::Scalar;
use rand::{thread_rng, Rng};

fn random_messages(n: usize) -> Vec<Scalar> {
    (0..n).map(|_| Scalar::random()).collect()
}

#[test]
fn issuer_hiding_it_works() {
    let message_len = 10;
    let ipks_len = 3;
    let mut rng = thread_rng();
    let messages: Vec<Scalar> = random_messages(message_len);

    let pp = par_gen().unwrap();

    let keypair = key_gen(&pp).unwrap();

    let signature = sign(&pp, &keypair.sk, &messages).unwrap();
    let bool1 = verify_sign(&pp, &keypair.pk, &signature, &messages);
    assert_eq!(bool1, Ok(true));

    let mut ipks = Vec::new();
    for _ in 0..ipks_len {
        let ipk = key_gen(&pp).unwrap().pk;
        ipks.push(ipk);
    }
    let r = rng.gen_range(0..ipks_len);
    ipks[r] = keypair.pk.clone();
    let (policy_keypair, policy_proof) = set_policy(&pp, &ipks).unwrap();
    let bool_policy = audit_policy(&pp, &policy_keypair.ppk, &policy_proof);
    assert_eq!(bool_policy, Ok(true));

    let reveal_index = vec![0, 3, 5];
    let pt = create_proof(&pp, &keypair.pk, &signature, &policy_keypair.ppk, &messages, &reveal_index).unwrap();
    let bool2 = verify_proof(&pp, &pt, &policy_keypair);
    assert_eq!(bool2, Ok(true));
}

#[test]
fn ps_it_works() {
    let message_len = 10;
    let messages: Vec<Scalar> = random_messages(message_len);
    let pp = ps::par_gen().unwrap();
    let keypair = ps::key_gen(&pp).unwrap();
    let signature = ps::sign(&pp, &keypair.sk, &messages).unwrap();
    let bool1 = ps::verify_sign(&pp, &keypair.pk, &signature, &messages);
    assert_eq!(bool1, Ok(true));
    let reveal_index = vec![0, 3, 5];
    let pt = ps::create_proof(&pp, &keypair.pk, &signature, &messages, &reveal_index).unwrap();
    let bool2 = ps::verify_proof(&pp, &keypair.pk, &pt);
    assert_eq!(bool2, Ok(true));
}

struct Scene {
    pp: PublicParameters,
    pk: PublicKey,
    cred: Signature,
    messages: Vec<Scalar>,
    policy: PolicyKeyPair,
    policy_proof: PolicyProof,
}

fn short_key(pp: &PublicParameters, width: usize) -> (SecretKey, PublicKey) {
    let pair = issuer_hiding::sanders::key_pair_from(pp, SecretKey { y: random_messages(width) });
    (pair.sk, pair.pk)
}

fn scene(n: usize, width: usize, issuers: usize, position: usize) -> Scene {
    let pp = par_gen().unwrap();
    let (sk, pk) = short_key(&pp, width);
    let messages = random_messages(n);
    let cred = sign(&pp, &sk, &messages).unwrap();
    assert_eq!(verify_sign(&pp, &pk, &cred, &messages), Ok(true));
    let mut ipks: Vec<PublicKey> = (0..issuers).map(|_| short_key(&pp, width).1).collect();
    ipks[position] = pk.clone();
    let (policy, policy_proof) = set_policy(&pp, &ipks).unwrap();
    Scene { pp, pk, cred, messages, policy, policy_proof }
}

#[test]
fn sanders_happy_path_small() {
    let s = scene(5, 5, 5, 2);
    assert_eq!(audit_policy(&s.pp, &s.policy.ppk, &s.policy_proof), Ok(true));
    let pt = create_proof(&s.pp, &s.pk, &s.cred, &s.policy.ppk, &s.messages, &vec![0, 2]).unwrap();
    assert_eq!(pt.open_messages[1].to_bytes(), s.messages[2].to_bytes());
    assert_eq!(pt.proof.z_i.len(), 3);
    assert_eq!(verify_proof(&s.pp, &pt, &s.policy), Ok(true));
}

#[test]
fn sanders_no_and_all_disclosure() {
    let s = scene(10, 10, 10, 6);
    let pt = create_proof(&s.pp, &s.pk, &s.cred, &s.policy.ppk, &s.messages, &vec![]).unwrap();
    assert_eq!(verify_proof(&s.pp, &pt, &s.policy), Ok(true));
    let pt = create_proof(&s.pp, &s.pk, &s.cred, &s.policy.ppk, &s.messages, &(0..10).collect()).unwrap();
    assert_eq!(verify_proof(&s.pp, &pt, &s.policy), Ok(true));
}

#[test]
fn sanders_tampered_disclosure() {
    let s = scene(5, 5, 5, 2);
    let mut pt = create_proof(&s.pp, &s.pk, &s.cred, &s.policy.ppk, &s.messages, &vec![0, 2]).unwrap();
    pt.open_messages[0] = Scalar::from_u64(9);
    assert_eq!(
        verify_proof(&s.pp, &pt, &s.policy),
        Err(Error::ProofVerificationFailed(ProofCheck::Challenge))
    );
}

#[test]
fn sanders_out_of_list_issuer() {
    let s = scene(5, 5, 5, 2);
    let (sk, pk) = short_key(&s.pp, 5);
    let cred = sign(&s.pp, &sk, &s.messages).unwrap();
    let pt = create_proof(&s.pp, &pk, &cred, &s.policy.ppk, &s.messages, &vec![0]).unwrap();
    assert_eq!(
        verify_proof(&s.pp, &pt, &s.policy),
        Err(Error::ProofVerificationFailed(ProofCheck::PolicyBinding))
    );
    // A credential of another issuer under a listed key does not verify.
    let pt = create_proof(&s.pp, &s.pk, &cred, &s.policy.ppk, &s.messages, &vec![0]).unwrap();
    assert_eq!(
        verify_proof(&s.pp, &pt, &s.policy),
        Err(Error::ProofVerificationFailed(ProofCheck::PolicyBinding))
    );
    // A commitment that the challenge was not made from fails at the challenge.
    let honest = create_proof(&s.pp, &s.pk, &s.cred, &s.policy.ppk, &s.messages, &vec![0]).unwrap();
    let mut swapped = honest.clone();
    swapped.k = pt.k;
    assert_eq!(
        verify_proof(&s.pp, &swapped, &s.policy),
        Err(Error::ProofVerificationFailed(ProofCheck::Challenge))
    );
    assert_eq!(verify_proof(&s.pp, &honest, &s.policy), Ok(true));
}

#[test]
fn sanders_policy_is_audited() {
    let s = scene(2, 3, 4, 1);
    let mut forged = s.policy.ppk.clone();
    forged.t[1][2] = forged.t[0][2];
    assert_eq!(
        audit_policy(&s.pp, &forged, &s.policy_proof),
        Err(Error::ProofVerificationFailed(ProofCheck::Challenge))
    );
    let mut forged = s.policy_proof.clone();
    forged.vec_z[2] = Scalar::from_u64(1);
    assert_eq!(
        audit_policy(&s.pp, &s.policy.ppk, &forged),
        Err(Error::ProofVerificationFailed(ProofCheck::Challenge))
    );
    let mut ragged = s.policy.ppk.clone();
    ragged.t[3].pop();
    assert_eq!(audit_policy(&s.pp, &ragged, &s.policy_proof), Err(Error::InvalidParameter));
    let mut short = s.policy_proof.clone();
    short.vec_z.pop();
    assert_eq!(audit_policy(&s.pp, &s.policy.ppk, &short), Err(Error::InvalidParameter));
    assert_eq!(set_policy(&s.pp, &Vec::new()).err(), Some(Error::InvalidParameter));
    let uneven = vec![short_key(&s.pp, 3).1, short_key(&s.pp, 2).1];
    assert_eq!(set_policy(&s.pp, &uneven).err(), Some(Error::InvalidParameter));
}

#[test]
fn sanders_from_given_scalars() {
    let pp = par_gen().unwrap();
    let y: Vec<Scalar> = vec![Scalar::from_u64(2), Scalar::from_u64(3)];
    let pair = issuer_hiding::sanders::key_pair_from(&pp, SecretKey { y });
    let other = short_key(&pp, 2).1;
    let messages = vec![Scalar::from_u64(10), Scalar::from_u64(20)];
    let r = Scalar::from_u64(7);
    let sig1 = sign_with(&pp, &pair.sk, &messages, &r).unwrap();
    let sig2 = sign_with(&pp, &pair.sk, &messages, &r).unwrap();
    assert_eq!(sig1.sigma1.to_bytes(), sig2.sigma1.to_bytes());
    assert_eq!(sig1.sigma2.to_bytes(), sig2.sigma2.to_bytes());
    assert_eq!(verify_sign(&pp, &pair.pk, &sig1, &messages), Ok(true));
    let wrong = vec![Scalar::from_u64(10), Scalar::from_u64(21)];
    assert_eq!(verify_sign(&pp, &pair.pk, &sig1, &wrong), Err(Error::SignatureVerificationFailed));
    assert_eq!(sign_with(&pp, &pair.sk, &messages, &Scalar::from_u64(0)).err(), Some(Error::RandomnessFailure));
    assert_eq!(sign(&pp, &pair.sk, &Vec::new()).err(), Some(Error::InvalidParameter));
    assert_eq!(sign(&pp, &pair.sk, &random_messages(3)).err(), Some(Error::InvalidParameter));

    let ipks = vec![other, pair.pk.clone()];
    let nonces = PolicyNonces {
        a: Scalar::from_u64(4),
        b: vec![Scalar::from_u64(5), Scalar::from_u64(6)],
        r: vec![Scalar::from_u64(7), Scalar::from_u64(8), Scalar::from_u64(9)],
    };
    let (first, first_proof) = set_policy_with(&pp, &ipks, &nonces).unwrap();
    let (second, second_proof) = set_policy_with(&pp, &ipks, &nonces).unwrap();
    assert_eq!(first.ppk.s.to_bytes(), second.ppk.s.to_bytes());
    assert_eq!(first.ppk.t[1][1].to_bytes(), second.ppk.t[1][1].to_bytes());
    assert_eq!(first_proof.c.to_bytes(), second_proof.c.to_bytes());
    assert_eq!(first_proof.vec_z[2].to_bytes(), second_proof.vec_z[2].to_bytes());
    assert_eq!(audit_policy(&pp, &first.ppk, &first_proof), Ok(true));
    let mut bad = nonces.clone();
    bad.r.pop();
    assert_eq!(set_policy_with(&pp, &ipks, &bad).err(), Some(Error::InvalidParameter));
    let mut bad = nonces.clone();
    bad.a = Scalar::from_u64(0);
    assert_eq!(set_policy_with(&pp, &ipks, &bad).err(), Some(Error::RandomnessFailure));

    let blinding = Blinding { r_1: Scalar::from_u64(3), r_2: Scalar::from_u64(4), k_i: vec![Scalar::from_u64(5)] };
    let first_token = create_proof_with(&pp, &pair.pk, &sig1, &first.ppk, &messages, &vec![1], &blinding).unwrap();
    let second_token = create_proof_with(&pp, &pair.pk, &sig1, &first.ppk, &messages, &vec![1], &blinding).unwrap();
    assert_eq!(first_token.sigma_tilde.to_bytes(), second_token.sigma_tilde.to_bytes());
    assert_eq!(first_token.proof.c.to_bytes(), second_token.proof.c.to_bytes());
    assert_eq!(verify_proof(&pp, &first_token, &first), Ok(true));
    let mut bad_key = first.clone();
    bad_key.psk.a = Scalar::from_u64(0);
    assert_eq!(verify_proof(&pp, &first_token, &bad_key), Err(Error::InvalidKey));
    let mut bad_key = first.clone();
    bad_key.psk.b[0] = Scalar::from_u64(50);
    assert_eq!(
        verify_proof(&pp, &first_token, &bad_key),
        Err(Error::ProofVerificationFailed(ProofCheck::PolicyBinding))
    );
    assert_eq!(first_token.k.to_bytes(), second_token.k.to_bytes());
}

#[test]
fn ps_from_given_scalars() {
    let pp = ps::par_gen().unwrap();
    let sk = ps::SecretKey { x: Scalar::from_u64(11), y: vec![Scalar::from_u64(2), Scalar::from_u64(3)] };
    let pair = ps::key_pair_from(&pp, sk);
    let messages = vec![Scalar::from_u64(10), Scalar::from_u64(20)];
    let r = Scalar::from_u64(7);
    let sig1 = ps::sign_with(&pp, &pair.sk, &messages, &r).unwrap();
    let sig2 = ps::sign_with(&pp, &pair.sk, &messages, &r).unwrap();
    assert_eq!(sig1.sigma2.to_bytes(), sig2.sigma2.to_bytes());
    assert_eq!(ps::verify_sign(&pp, &pair.pk, &sig1, &messages), Ok(true));
    let wrong = vec![Scalar::from_u64(10), Scalar::from_u64(21)];
    assert_eq!(ps::verify_sign(&pp, &pair.pk, &sig1, &wrong), Err(Error::SignatureVerificationFailed));
    assert_eq!(ps::sign(&pp, &pair.sk, &Vec::new()).err(), Some(Error::InvalidParameter));
    let blinding = ps::Blinding {
        r: Scalar::from_u64(3),
        t: Scalar::from_u64(4),
        k_i: vec![Scalar::from_u64(5)],
        k_t: Scalar::from_u64(6),
    };
    let first_token = ps::create_proof_with(&pp, &pair.pk, &sig1, &messages, &vec![0], &blinding).unwrap();
    let second_token = ps::create_proof_with(&pp, &pair.pk, &sig1, &messages, &vec![0], &blinding).unwrap();
    assert_eq!(first_token.sigma1.to_bytes(), second_token.sigma1.to_bytes());
    assert_eq!(first_token.proof.c.to_bytes(), second_token.proof.c.to_bytes());
    assert_eq!(ps::verify_proof(&pp, &pair.pk, &first_token), Ok(true));
    let mut bad = first_token.clone();
    bad.open_messages[0] = Scalar::from_u64(1);
    assert_eq!(
        ps::verify_proof(&pp, &pair.pk, &bad),
        Err(Error::ProofVerificationFailed(ProofCheck::Challenge))
    );
    let mut bad = first_token.clone();
    bad.proof.z_i.pop();
    assert_eq!(ps::verify_proof(&pp, &pair.pk, &bad), Err(Error::InvalidParameter));
    assert_eq!(
        ps::create_proof(&pp, &pair.pk, &sig1, &messages, &vec![2]).err(),
        Some(Error::InvalidParameter)
    );
    for reveal in [vec![], vec![0, 1]] {
        let t = ps::create_proof(&pp, &pair.pk, &sig1, &messages, &reveal).unwrap();
        assert_eq!(ps::verify_proof(&pp, &pair.pk, &t), Ok(true));
    }
}

#[test]
fn sanders_issuer_listed_twice_is_rejected() {
    let pp = par_gen().unwrap();
    let (sk, pk) = short_key(&pp, 4);
    let messages = random_messages(4);
    let cred = sign(&pp, &sk, &messages).unwrap();
    let mut ipks: Vec<PublicKey> = (0..4).map(|_| short_key(&pp, 4).1).collect();
    ipks[1] = pk.clone();
    ipks[3] = pk.clone();
    let (policy, policy_proof) = set_policy(&pp, &ipks).unwrap();
    assert_eq!(audit_policy(&pp, &policy.ppk, &policy_proof), Ok(true));
    let pt = create_proof(&pp, &pk, &cred, &policy.ppk, &messages, &vec![2]).unwrap();
    assert_eq!(verify_proof(&pp, &pt, &policy), Err(Error::ProofVerificationFailed(ProofCheck::PolicyBinding)));
    // listed once, the same credential is accepted
    ipks[3] = short_key(&pp, 4).1;
    let (policy, _) = set_policy(&pp, &ipks).unwrap();
    let pt = create_proof(&pp, &pk, &cred, &policy.ppk, &messages, &vec![2]).unwrap();
    assert_eq!(verify_proof(&pp, &pt, &policy), Ok(true));
}

#[test]
fn sanders_indices_in_any_order() {
    let s = scene(5, 5, 3, 1);
    let pt = create_proof(&s.pp, &s.pk, &s.cred, &s.policy.ppk, &s.messages, &vec![2, 0]).unwrap();
    assert_eq!(pt.reveal_index, vec![0, 2]);
    assert_eq!(pt.open_messages.len(), 2);
    assert_eq!(pt.open_messages[0].to_bytes(), s.messages[0].to_bytes());
    assert_eq!(pt.open_messages[1].to_bytes(), s.messages[2].to_bytes());
    assert_eq!(pt.proof.z_i.len(), 3);
    assert_eq!(verify_proof(&s.pp, &pt, &s.policy), Ok(true));
    assert_eq!(
        create_proof(&s.pp, &s.pk, &s.cred, &s.policy.ppk, &s.messages, &vec![2, 2]).err(),
        Some(Error::InvalidParameter)
    );
}

#[test]
fn ps_indices_in_any_order() {
    let pp = ps::par_gen().unwrap();
    let keypair = ps::key_gen(&pp).unwrap();
    let messages: Vec<Scalar> = [10u64, 20, 30, 40, 50].iter().map(|v| Scalar::from_u64(*v)).collect();
    let signature = ps::sign(&pp, &keypair.sk, &messages).unwrap();
    let pt = ps::create_proof(&pp, &keypair.pk, &signature, &messages, &vec![4, 1]).unwrap();
    assert_eq!(pt.reveal_index, vec![1, 4]);
    assert_eq!(pt.open_messages[0].to_bytes(), Scalar::from_u64(20).to_bytes());
    assert_eq!(pt.open_messages[1].to_bytes(), Scalar::from_u64(50).to_bytes());
    assert_eq!(pt.proof.z_i.len(), 3);
    assert_eq!(ps::verify_proof(&pp, &keypair.pk, &pt), Ok(true));
    assert_eq!(
        ps::create_proof(&pp, &keypair.pk, &signature, &messages, &vec![1, 4, 1]).err(),
        Some(Error::InvalidParameter)
    );
}

#[test]
fn generated_secrets_are_not_zero() {
    let pp = ps::par_gen().unwrap();
    let pair = ps::key_gen(&pp).unwrap();
    assert!(!pair.sk.x.is_zero());
    assert_eq!(pair.sk.y.len(), 50);
    assert!(pair.sk.y.iter().all(|y| !y.is_zero()));
    assert!(pair.pk.pk_y.iter().all(|p| !p.is_identity()));
    let pp = par_gen().unwrap();
    let pair = key_gen(&pp).unwrap();
    assert_eq!(pair.sk.y.len(), 50);
    assert!(pair.sk.y.iter().all(|y| !y.is_zero()));
    assert!(pair.pk.pk_y.iter().all(|p| !p.is_identity()));
}

#[test]
fn sanders_set_policy_refuses_identity_point() {
    let pp = par_gen().unwrap();
    let (_, listed) = short_key(&pp, 3);
    let (_, mut broken) = short_key(&pp, 3);
    let mut encoding = [0u8; 96];
    encoding[0] = 0xc0;
    broken.pk_y[1] = issuer_hiding::group::G2::from_bytes(&encoding).unwrap();
    assert_eq!(set_policy(&pp, &vec![listed.clone(), broken]).err(), Some(Error::InvalidKey));
    let (policy, _) = set_policy(&pp, &vec![listed]).unwrap();
    assert!(!policy.psk.a.is_zero());
    assert!(!policy.ppk.s.is_identity());
}
