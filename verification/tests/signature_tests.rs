use ark_serialize::CanonicalSerialize;
use issuer_hiding::bbs_proof;
use issuer_hiding::bobolz;
use issuer_hiding::groth;
use issuer_hiding::groth1;
use issuer_hiding::groth2;
use issuer_hiding::issuer;
use issuer_hiding::scalar::Scalar;
use issuer_hiding::verifier_bbs;
use num_bigint::BigUint;
use rand::{thread_rng, Rng};

#[test]
fn bobolz_it_works() {
    assert_eq!(2 + 2, 4);

    let message_len = 10;
    let issuer_num = 5;
    let mut rng = thread_rng();
    let pp = bobolz::par_gen().unwrap();
    let issuer_keypair = bobolz::issuer_key_gen(&pp).unwrap();
    let ipk = &issuer_keypair.public_key;
    let mut message_fr = Vec::new();
    for _ in 0..message_len {
        message_fr.push(Scalar::random());
    }
    let cred = bobolz::issue(&pp, &issuer_keypair.secret_key, &message_fr).unwrap();
    let result1 = bobolz::verify(&pp, &cred, &message_fr, &issuer_keypair.public_key);
    assert_eq!(result1, Ok(true));

    let verifier_keypair = bobolz::verifier_key_gen(&pp).unwrap();
    let mut issuer_list = Vec::new();
    for _ in 0..issuer_num {
        let issuer_keypair_i = bobolz::issuer_key_gen(&pp).unwrap();
        let ipk_i = issuer_keypair_i.public_key;
        issuer_list.push(ipk_i);
    }

    let r = rng.gen_range(1..issuer_num);
    issuer_list[r] = ipk.clone();
    let trusted_issuer_credential = bobolz::issue_list(&pp, &issuer_list, &verifier_keypair).unwrap();
    let result2 = bobolz::verify_list(&pp, &trusted_issuer_credential);
    assert_eq!(result2, Ok(true));
    let open_num = rng.gen_range(1..(message_len / 2));
    let mut open = Vec::new();
    for j in 0..open_num {
        let mut flg = true;
        let mut x = rng.gen_range(0..message_len) as usize;
        while flg {
            flg = false;
            for i in 0..j {
                if x == open[i as usize] {
                    flg = true;
                    x = rng.gen_range(0..message_len) as usize;
                    break;
                }
            }
        }
        open.push(x);
    }
    open.sort();
    let pt = bobolz::present(&pp, &cred, &ipk, &message_fr, &trusted_issuer_credential, &open).unwrap();
    let result3 = bobolz::verify_present(&pp, &trusted_issuer_credential, &pt);
    assert_eq!(result3, Ok(true));
}

#[test]
fn groth_it_works() {
    assert_eq!(2 + 2, 4);
}

#[test]
fn it_works() {
    let pp = groth::par_gen();
    println!("{:?}", pp);
    let pp = pp.unwrap();
    assert_eq!(pp.g1.to_bytes()[0], 0x97);
    assert_eq!(pp.g2.to_bytes()[0], 0x93);
    assert_ne!(pp.g1.to_bytes(), pp.y1.to_bytes());
    assert_ne!(pp.g2.to_bytes(), pp.y2.to_bytes());
    assert!(!pp.y1.is_identity());
    assert!(!pp.y2.is_identity());
}

#[test]
fn groth1_it_works() {
    assert_eq!(2 + 2, 4);
    let pp = groth1::par_gen().unwrap();
    let keypair = groth1::key_gen(&pp).unwrap();
    let message_string = "It's a Bobolz et.al. Issuer-Hiding";
    let message = groth::hash_to_g1(message_string.as_bytes(), b"TEST-DST");
    let sig = groth1::sign(&pp, &keypair.secret_key, &message).unwrap();
    let newsig = groth1::rand_sign(&sig).unwrap();
    let result = groth1::verify(&pp, &keypair.public_key, &newsig, &message);
    assert_eq!(result, Ok(true));
}

#[test]
fn groth2_it_works() {
    assert_eq!(2 + 2, 4);
    let pp = groth2::par_gen().unwrap();
    let keypair = groth2::key_gen(&pp).unwrap();
    let message_string = "It's a Bobolz et.al. Issuer-Hiding";
    let message = groth::hash_to_g2(message_string.as_bytes(), b"TEST-DST");
    let sig = groth2::sign(&pp, &keypair.secret_key, &message).unwrap();
    let newsig = groth2::rand_sign(&sig).unwrap();
    let result = groth2::verify(&pp, &keypair.public_key, &newsig, &message);
    assert_eq!(result, Ok(true));
}

#[test]
fn issuer_it_works() {
    let pp = issuer::par_gen().unwrap();
    let keypair = issuer::key_gen(&pp).unwrap();
    println!("Secret Key: {:?}", keypair.secret_key.0);
    let message_string = "Issuer-Hiding BBS Test Message";
    let message_fr = ark_bls12_381::Fr::from(BigUint::from_bytes_be(message_string.as_bytes()));
    let mut encoded = [0u8; 32];
    message_fr.serialize_compressed(&mut encoded[..]).unwrap();
    let messages = vec![Scalar::from_bytes(&encoded).unwrap()];
    let signature = issuer::sign(&pp, &keypair.secret_key, &messages).unwrap();
    let verify_result = issuer::verify(&pp, &keypair.public_key, &messages, &signature);
    assert_eq!(verify_result, Ok(true));
}

#[test]
fn proof_it_works() {
    let message_len = 10;
    let messages: Vec<Scalar> = (0..message_len).map(|_| Scalar::random()).collect();
    let pp = issuer::par_gen().unwrap();
    let keypair = issuer::key_gen(&pp).unwrap();
    let signature = issuer::sign(&pp, &keypair.secret_key, &messages).unwrap();
    let reveal_index = vec![0, 3, 5];
    let (pikp, pizkp) = bbs_proof::prove(&pp, &signature, &messages, &reveal_index).unwrap();
    let bool = bbs_proof::verify_proof(&pp, &keypair.public_key, &pikp, &pizkp);
    assert_eq!(bool, Ok(true));
}

#[test]
fn verifier_it_works() {
    let pp = verifier_bbs::par_gen().unwrap();
    let pp_issuer = issuer::par_gen().unwrap();
    let issuerkeypair = issuer::key_gen(&pp_issuer).unwrap();
    let verifierkeypair = verifier_bbs::key_gen(&pp).unwrap();
    let signature = verifier_bbs::sign(&pp, &verifierkeypair.secret_key, &issuerkeypair.public_key.0).unwrap();
    let verify_result =
        verifier_bbs::verify(&pp, &verifierkeypair.public_key, &issuerkeypair.public_key.0, &signature);
    assert_eq!(verify_result, Ok(true));
}

#[test]
fn proof_for_known_issuer_scenarios() {
    let pp = issuer::par_gen().unwrap();
    let keypair = issuer::key_gen(&pp).unwrap();
    for n in [1usize, 2, 5, 10, 50] {
        let messages: Vec<Scalar> = (0..n).map(|_| Scalar::random()).collect();
        let signature = issuer::sign(&pp, &keypair.secret_key, &messages).unwrap();
        for reveal in [Vec::new(), (0..n).collect::<Vec<usize>>()] {
            let (pikp, pizkp) = bbs_proof::prove(&pp, &signature, &messages, &reveal).unwrap();
            assert_eq!(bbs_proof::verify_proof(&pp, &keypair.public_key, &pikp, &pizkp), Ok(true));
        }
    }
    let messages: Vec<Scalar> = (0..5).map(|_| Scalar::random()).collect();
    let signature = issuer::sign(&pp, &keypair.secret_key, &messages).unwrap();
    let (mut pikp, pizkp) = bbs_proof::prove(&pp, &signature, &messages, &vec![0, 2]).unwrap();
    pikp.message_list[1] = Scalar::from_u64(3);
    assert_eq!(
        bbs_proof::verify_proof(&pp, &keypair.public_key, &pikp, &pizkp),
        Err(issuer_hiding::error::Error::ProofVerificationFailed(issuer_hiding::error::ProofCheck::Challenge))
    );
    assert_eq!(
        bbs_proof::prove(&pp, &signature, &messages, &vec![2, 2]).err(),
        Some(issuer_hiding::error::Error::InvalidParameter)
    );
    assert_eq!(
        bbs_proof::prove(&pp, &signature, &Vec::new(), &Vec::new()).err(),
        Some(issuer_hiding::error::Error::InvalidParameter)
    );
}

#[test]
fn proof_indices_in_any_order() {
    let pp = issuer::par_gen().unwrap();
    let keypair = issuer::key_gen(&pp).unwrap();
    let messages: Vec<Scalar> = [10u64, 20, 30, 40, 50].iter().map(|v| Scalar::from_u64(*v)).collect();
    let signature = issuer::sign(&pp, &keypair.secret_key, &messages).unwrap();
    let (pikp, pizkp) = bbs_proof::prove(&pp, &signature, &messages, &vec![2, 0]).unwrap();
    assert_eq!(pikp.open, vec![0, 2]);
    assert_eq!(pikp.len, 5);
    assert_eq!(pikp.message_list[0].to_bytes(), Scalar::from_u64(10).to_bytes());
    assert_eq!(pikp.message_list[1].to_bytes(), Scalar::from_u64(30).to_bytes());
    assert_eq!(pizkp.v.len(), 3);
    assert_eq!(bbs_proof::verify_proof(&pp, &keypair.public_key, &pikp, &pizkp), Ok(true));
}
