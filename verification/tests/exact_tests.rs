use ark_bls12_381::{g1::Config as G1Config, g2::Config as G2Config, G1Projective, G2Projective};
use ark_bls12_381::{Bls12_381, Fr, G1Affine, G2Affine};
use ark_ec::hashing::{curve_maps::wb::WBMap, map_to_curve_hasher::MapToCurveBasedHasher, HashToCurve};
use ark_ec::pairing::Pairing;
use ark_ff::field_hashers::{DefaultFieldHasher, HashToField};
use sha2::Sha256;
use ark_ec::{AffineRepr, CurveGroup};
use ark_ff::{Field, PrimeField};
use ark_serialize::{CanonicalDeserialize, CanonicalSerialize};
use issuer_hiding::bbs::SecretKey;
use issuer_hiding::bbs_proof;
use issuer_hiding::error::Error;
use issuer_hiding::group::{G1, G2};
use issuer_hiding::groth;
use issuer_hiding::groth1;
use issuer_hiding::groth2;
use issuer_hiding::hashing::{hash_to_fr, hash_to_g1, hash_to_g2};
use issuer_hiding::issuer;
use issuer_hiding::katz;
use issuer_hiding::scalar::Scalar;
use issuer_hiding::setup::{decode_g1_hex, decode_g2_hex, message_generators, G1_GENERATOR_HEX, G2_GENERATOR_HEX};
use issuer_hiding::sigma::Nonces;
use issuer_hiding::verifier_bbs;

fn fr(s: &Scalar) -> Fr {
    Fr::deserialize_compressed(&s.to_bytes()[..]).unwrap()
}

fn scalar(x: Fr) -> Scalar {
    let mut bytes = [0u8; 32];
    x.serialize_compressed(&mut bytes[..]).unwrap();
    Scalar::from_bytes(&bytes).unwrap()
}

fn g1(p: &G1) -> G1Affine {
    G1Affine::deserialize_compressed(&p.to_bytes()[..]).unwrap()
}

fn g2(p: &G2) -> G2Affine {
    G2Affine::deserialize_compressed(&p.to_bytes()[..]).unwrap()
}

fn enc1(p: G1Affine) -> [u8; 48] {
    let mut bytes = [0u8; 48];
    p.serialize_compressed(&mut bytes[..]).unwrap();
    bytes
}

fn enc2(p: G2Affine) -> [u8; 96] {
    let mut bytes = [0u8; 96];
    p.serialize_compressed(&mut bytes[..]).unwrap();
    bytes
}

#[test]
fn scalar_encoding_and_arithmetic() {
    assert_eq!(fr(&Scalar::from_u64(77)), Fr::from(77u64));
    // the group order, little-endian, is not a scalar; one less is
    let mut order = [0u8; 32];
    let minus_one = -Fr::from(1u64);
    minus_one.serialize_compressed(&mut order[..]).unwrap();
    assert!(Scalar::from_bytes(&order).is_ok());
    order[0] += 1;
    assert_eq!(Scalar::from_bytes(&order).err(), Some(Error::InvalidEncoding));
    assert_eq!(Scalar::from_bytes(&[0xffu8; 32]).err(), Some(Error::InvalidEncoding));
    let five = Scalar::from_u64(5);
    let inverse = five.invert().unwrap();
    assert_eq!(fr(&inverse) * Fr::from(5u64), Fr::from(1u64));
    assert_eq!(fr(&inverse), Fr::from(5u64).inverse().unwrap());
    assert!(Scalar::from_u64(0).invert().is_none());
    assert!(five.same(&Scalar::from_u64(5)));
    assert!(!five.same(&inverse));
    assert!(Scalar::random_nonzero().is_ok());
    assert_ne!(Scalar::random().to_bytes(), Scalar::random().to_bytes());
}

#[test]
fn points_decode_only_from_valid_encodings() {
    let generator = G1Affine::generator();
    let p = G1::from_bytes(&enc1(generator)).unwrap();
    assert_eq!(p.to_bytes(), enc1(generator));
    assert_eq!(decode_g1_hex(G1_GENERATOR_HEX).unwrap().to_bytes(), enc1(generator));
    assert_eq!(decode_g2_hex(G2_GENERATOR_HEX).unwrap().to_bytes(), enc2(G2Affine::generator()));
    assert_eq!(decode_g1_hex("97f1").err(), Some(Error::InvalidEncoding));
    assert_eq!(decode_g1_hex("zz").err(), Some(Error::InvalidEncoding));
    assert_eq!(decode_g1_hex("abc").err(), Some(Error::InvalidEncoding));
    assert_eq!(decode_g2_hex(G1_GENERATOR_HEX).err(), Some(Error::InvalidEncoding));
    assert_eq!(
        decode_g1_hex(&G1_GENERATOR_HEX.to_uppercase()).unwrap().to_bytes(),
        enc1(generator)
    );
    assert_eq!(G1::from_bytes(&[0xffu8; 48]).err(), Some(Error::InvalidEncoding));
    assert_eq!(G2::from_bytes(&[0x01u8; 96]).err(), Some(Error::InvalidEncoding));
    assert_eq!(G1::from_slice(&enc1(generator)[..47]).err(), Some(Error::InvalidEncoding));
    assert_eq!(G2::from_slice(&[0u8; 97]).err(), Some(Error::InvalidEncoding));
    let identity = G1::from_bytes(&enc1(G1Affine::identity())).unwrap();
    assert!(identity.is_identity());
    assert!(!p.is_identity());
    assert!(G2::from_bytes(&enc2(G2Affine::identity())).unwrap().is_identity());
    assert!(p.same(&G1::from_slice(&enc1(generator)).unwrap()));
    assert!(!p.same(&identity));
}

#[test]
fn hashes_match_the_curve_library() {
    let hasher = <DefaultFieldHasher<Sha256> as HashToField<Fr>>::new(b"tag");
    let expected: [Fr; 1] = hasher.hash_to_field::<1>(b"message");
    assert_eq!(fr(&hash_to_fr(b"message", b"tag")), expected[0]);
    assert_ne!(hash_to_fr(b"message", b"tag").to_bytes(), hash_to_fr(b"message", b"tag2").to_bytes());
    assert_ne!(hash_to_fr(b"message", b"tag").to_bytes(), hash_to_fr(b"massage", b"tag").to_bytes());
    let to_g1 = MapToCurveBasedHasher::<G1Projective, DefaultFieldHasher<Sha256>, WBMap<G1Config>>::new(b"tag")
        .unwrap();
    assert_eq!(g1(&hash_to_g1(b"message", b"tag")), to_g1.hash(b"message").unwrap());
    let to_g2 = MapToCurveBasedHasher::<G2Projective, DefaultFieldHasher<Sha256>, WBMap<G2Config>>::new(b"tag")
        .unwrap();
    assert_eq!(g2(&hash_to_g2(b"message", b"tag")), to_g2.hash(b"message").unwrap());
    assert!(!hash_to_g1(b"", b"").is_identity());
    assert!(!hash_to_g2(b"", b"").is_identity());
}

#[test]
fn message_generators_are_hashed_from_numbered_seeds() {
    let h = message_generators(50);
    assert_eq!(h.len(), 50);
    let dst = b"BLS12381G1_XMD:SHA-256_SSWU_RO_";
    assert_eq!(h[0].to_bytes(), hash_to_g1(b"MESSAGE_GENERATOR_SEED_0", dst).to_bytes());
    assert_eq!(h[9].to_bytes(), hash_to_g1(b"MESSAGE_GENERATOR_SEED_9", dst).to_bytes());
    assert_eq!(h[10].to_bytes(), hash_to_g1(b"MESSAGE_GENERATOR_SEED_10", dst).to_bytes());
    assert_eq!(h[49].to_bytes(), hash_to_g1(b"MESSAGE_GENERATOR_SEED_49", dst).to_bytes());
    for i in 0..50 {
        assert!(!h[i].is_identity());
        for j in 0..i {
            assert_ne!(h[i].to_bytes(), h[j].to_bytes());
        }
    }
    assert_eq!(message_generators(0).len(), 0);
    let pp = issuer::par_gen().unwrap();
    assert_eq!(pp.h_vec.len(), 50);
    assert_eq!(pp.h_vec[17].to_bytes(), h[17].to_bytes());
    let groth = groth::par_gen().unwrap();
    let seed = b"Jan Bobolz, Fabian Eidens, Stephan Krenn, Sebastian Ramacher, and Kai Samelin makes Y1";
    assert_eq!(groth.y1.to_bytes(), hash_to_g1(seed, b"GROTH-SIG-GENERATOR-DST-V1").to_bytes());
    let seed = b"Jan Bobolz, Fabian Eidens, Stephan Krenn, Sebastian Ramacher, and Kai Samelin makes Y2";
    assert_eq!(groth.y2.to_bytes(), hash_to_g2(seed, b"GROTH-SIG-GENERATOR-DST-V2").to_bytes());
    let bbs = issuer_hiding::bbs::par_gen().unwrap();
    assert_eq!(
        bbs.gbar1.to_bytes(),
        hash_to_g1(b"Issuer-Hiding BBS Make to gbar1", b"BBS-SIG-GENERATOR-DST-V1").to_bytes()
    );
    assert_eq!(
        bbs.gbar2.to_bytes(),
        hash_to_g2(b"Issuer-Hiding BBS Make to gbar2", b"BBS-SIG-GENERATOR-DST-V2").to_bytes()
    );
}

#[test]
fn groth1_signature_values() {
    let pp = groth1::par_gen().unwrap();
    let x = Fr::from(1234u64);
    let r = Fr::from(99u64);
    let pair = groth1::key_pair_from(&pp, groth::SecretKey(scalar(x))).unwrap();
    assert_eq!(g2(&pair.public_key.0), (g2(&pp.g2) * x).into_affine());
    let message = hash_to_g1(b"a message", b"TEST-DST");
    let sig = groth1::sign_with(&pp, &pair.secret_key, &message, &scalar(r)).unwrap();
    let r_inv = r.inverse().unwrap();
    assert_eq!(g2(&sig.r2), (g2(&pp.g2) * r).into_affine());
    assert_eq!(g1(&sig.s1), ((g1(&pp.y1) + g1(&pp.g1) * x) * r_inv).into_affine());
    assert_eq!(g1(&sig.t1), ((g1(&pp.y1) * x + g1(&message)) * r_inv).into_affine());
    assert_eq!(groth1::verify(&pp, &pair.public_key, &sig, &message), Ok(true));
    let k = Fr::from(5u64);
    let fresh = groth1::rand_sign_with(&sig, &scalar(k)).unwrap();
    assert_eq!(g2(&fresh.r2), (g2(&sig.r2) * k).into_affine());
    assert_eq!(g1(&fresh.s1), (g1(&sig.s1) * k.inverse().unwrap()).into_affine());
    assert_eq!(g1(&fresh.t1), (g1(&sig.t1) * k.inverse().unwrap()).into_affine());
    assert_eq!(
        groth1::verify(&pp, &pair.public_key, &fresh, &message),
        groth1::verify(&pp, &pair.public_key, &sig, &message)
    );
    let other = hash_to_g1(b"another message", b"TEST-DST");
    assert_eq!(
        groth1::verify(&pp, &pair.public_key, &sig, &other),
        Err(Error::SignatureVerificationFailed)
    );
    assert_eq!(
        groth1::verify(&pp, &pair.public_key, &fresh, &other),
        Err(Error::SignatureVerificationFailed)
    );
    let mut broken = sig;
    broken.s1 = sig.t1;
    assert_eq!(
        groth1::verify(&pp, &pair.public_key, &broken, &message),
        Err(Error::SignatureVerificationFailed)
    );
    let zero = Scalar::from_u64(0);
    assert_eq!(groth1::key_pair_from(&pp, groth::SecretKey(zero)).err(), Some(Error::InvalidKey));
    assert_eq!(
        groth1::sign_with(&pp, &groth::SecretKey(zero), &message, &scalar(r)).err(),
        Some(Error::InvalidKey)
    );
    assert_eq!(
        groth1::sign_with(&pp, &pair.secret_key, &message, &zero).err(),
        Some(Error::RandomnessFailure)
    );
    assert_eq!(groth1::rand_sign_with(&sig, &zero).err(), Some(Error::RandomnessFailure));
    let identity = groth1::PublicKey(G2::from_bytes(&enc2(G2Affine::identity())).unwrap());
    assert_eq!(groth1::verify(&pp, &identity, &sig, &message), Err(Error::InvalidKey));
    // two randomizations of one signature differ and both verify
    let a = groth1::rand_sign(&sig).unwrap();
    let b = groth1::rand_sign(&sig).unwrap();
    assert_ne!(a.r2.to_bytes(), b.r2.to_bytes());
    assert_eq!(groth1::verify(&pp, &pair.public_key, &a, &message), Ok(true));
    assert_eq!(groth1::verify(&pp, &pair.public_key, &b, &message), Ok(true));
}

#[test]
fn groth2_signature_values() {
    let pp = groth2::par_gen().unwrap();
    let x = Fr::from(4321u64);
    let r = Fr::from(17u64);
    let pair = groth2::key_pair_from(&pp, groth::SecretKey(scalar(x))).unwrap();
    assert_eq!(g1(&pair.public_key.0), (g1(&pp.g1) * x).into_affine());
    let message = hash_to_g2(b"a message", b"TEST-DST");
    let sig = groth2::sign_with(&pp, &pair.secret_key, &message, &scalar(r)).unwrap();
    let r_inv = r.inverse().unwrap();
    assert_eq!(g1(&sig.r1), (g1(&pp.g1) * r).into_affine());
    assert_eq!(g2(&sig.s2), ((g2(&pp.y2) + g2(&pp.g2) * x) * r_inv).into_affine());
    assert_eq!(g2(&sig.t2), ((g2(&pp.y2) * x + g2(&message)) * r_inv).into_affine());
    assert_eq!(groth2::verify(&pp, &pair.public_key, &sig, &message), Ok(true));
    let fresh = groth2::rand_sign_with(&sig, &scalar(Fr::from(3u64))).unwrap();
    assert_eq!(g1(&fresh.r1), (g1(&sig.r1) * Fr::from(3u64)).into_affine());
    assert_eq!(groth2::verify(&pp, &pair.public_key, &fresh, &message), Ok(true));
    let other = hash_to_g2(b"another message", b"TEST-DST");
    assert_eq!(
        groth2::verify(&pp, &pair.public_key, &fresh, &other),
        Err(Error::SignatureVerificationFailed)
    );
    let identity = groth2::PublicKey(G1::from_bytes(&enc1(G1Affine::identity())).unwrap());
    assert_eq!(groth2::verify(&pp, &identity, &sig, &message), Err(Error::InvalidKey));
}

#[test]
fn bbs_signature_values() {
    let pp = issuer::par_gen().unwrap();
    let x = Fr::from(31u64);
    let e = Fr::from(11u64);
    let pair = issuer::key_pair_from(&pp, SecretKey(scalar(x))).unwrap();
    assert_eq!(g2(&pair.public_key.0), (g2(&pp.g2) * x).into_affine());
    let m = vec![Fr::from(3u64), Fr::from(4u64), Fr::from(5u64)];
    let messages: Vec<Scalar> = m.iter().map(|v| scalar(*v)).collect();
    let sig = issuer::sign_with(&pp, &pair.secret_key, &messages, &scalar(e)).unwrap();
    let b = g1(&pp.g1) + g1(&pp.h_vec[0]) * m[0] + g1(&pp.h_vec[1]) * m[1] + g1(&pp.h_vec[2]) * m[2];
    assert_eq!(g1(&sig.a), (b * (x + e).inverse().unwrap()).into_affine());
    assert_eq!(fr(&sig.e), e);
    assert_eq!(issuer::verify(&pp, &pair.public_key, &messages, &sig), Ok(true));
    let mut other = messages.clone();
    other[1] = Scalar::from_u64(6);
    assert_eq!(
        issuer::verify(&pp, &pair.public_key, &other, &sig),
        Err(Error::SignatureVerificationFailed)
    );
    let too_many: Vec<Scalar> = (0..51).map(|i| Scalar::from_u64(i)).collect();
    assert_eq!(issuer::sign(&pp, &pair.secret_key, &too_many).err(), Some(Error::InvalidParameter));
    assert_eq!(issuer::verify(&pp, &pair.public_key, &too_many, &sig), Err(Error::InvalidParameter));
    assert_eq!(
        issuer::sign(&pp, &SecretKey(Scalar::from_u64(0)), &messages).err(),
        Some(Error::InvalidKey)
    );
    assert_eq!(
        issuer::sign_with(&pp, &pair.secret_key, &messages, &Scalar::from_u64(0)).err(),
        Some(Error::RandomnessFailure)
    );
    assert_eq!(
        issuer::sign_with(&pp, &pair.secret_key, &messages, &scalar(-x)).err(),
        Some(Error::RandomnessFailure)
    );
    let identity = issuer::PublicKey(G2::from_bytes(&enc2(G2Affine::identity())).unwrap());
    assert_eq!(issuer::verify(&pp, &identity, &messages, &sig), Err(Error::InvalidKey));
    // a signature on no attribute is a signature on the generator alone
    let none: Vec<Scalar> = Vec::new();
    let bare = issuer::sign_with(&pp, &pair.secret_key, &none, &scalar(e)).unwrap();
    assert_eq!(g1(&bare.a), (g1(&pp.g1) * (x + e).inverse().unwrap()).into_affine());
    assert_eq!(issuer::verify(&pp, &pair.public_key, &none, &bare), Ok(true));

    let vp = verifier_bbs::par_gen().unwrap();
    let vx = Fr::from(71u64);
    let verifier = verifier_bbs::key_pair_from(&vp, SecretKey(scalar(vx))).unwrap();
    assert_eq!(g1(&verifier.public_key.0), (g1(&vp.gbar1) * vx).into_affine());
    assert_eq!(g2(&verifier.public_key.1), (g2(&vp.gbar2) * vx).into_affine());
    let on_key =
        verifier_bbs::sign_with(&vp, &verifier.secret_key, &pair.public_key.0, &scalar(e)).unwrap();
    assert_eq!(
        g2(&on_key.a),
        ((g2(&vp.gbar2) + g2(&pair.public_key.0)) * (vx + e).inverse().unwrap()).into_affine()
    );
    assert_eq!(verifier_bbs::verify(&vp, &verifier.public_key, &pair.public_key.0, &on_key), Ok(true));
    assert_eq!(
        verifier_bbs::verify(&vp, &verifier.public_key, &vp.gbar2, &on_key),
        Err(Error::SignatureVerificationFailed)
    );
    assert_eq!(
        verifier_bbs::sign(&vp, &SecretKey(Scalar::from_u64(0)), &pair.public_key.0).err(),
        Some(Error::InvalidKey)
    );
}

#[test]
fn presentation_values_and_transcript() {
    let pp = katz::par_gen().unwrap();
    let x = Fr::from(31u64);
    let e = Fr::from(11u64);
    let holder = issuer::key_pair_from(&pp, SecretKey(scalar(x))).unwrap();
    let other = issuer::key_pair_from(&pp, SecretKey(scalar(Fr::from(47u64)))).unwrap();
    let m = vec![Fr::from(3u64), Fr::from(4u64), Fr::from(5u64)];
    let messages: Vec<Scalar> = m.iter().map(|v| scalar(*v)).collect();
    let cred = issuer::sign_with(&pp, &holder.secret_key, &messages, &scalar(e)).unwrap();
    let (a, b, alpha_p, beta_p) = (Fr::from(5u64), Fr::from(6u64), Fr::from(7u64), Fr::from(8u64));
    let policy_nonces = katz::PolicyNonces { a: scalar(a), b: scalar(b), alpha: scalar(alpha_p), beta: scalar(beta_p) };
    let keys = vec![other.public_key, holder.public_key];
    let policy = katz::set_policy_with(&pp, &keys, &policy_nonces).unwrap();
    let gen2 = g2(&pp.g2);
    assert_eq!(g2(&policy.public_key.s), (gen2 * a).into_affine());
    for i in 0..2 {
        assert_eq!(g2(&policy.public_key.t[i]), ((g2(&keys[i].0) + gen2 * b) * a).into_affine());
    }
    let mut policy_input = Vec::new();
    policy_input.extend_from_slice(&keys[0].0.to_bytes());
    policy_input.extend_from_slice(&keys[1].0.to_bytes());
    policy_input.extend_from_slice(&policy.public_key.s.to_bytes());
    policy_input.extend_from_slice(&policy.public_key.t[0].to_bytes());
    policy_input.extend_from_slice(&policy.public_key.t[1].to_bytes());
    policy_input.extend_from_slice(&enc2((g2(&policy.public_key.s) * alpha_p).into_affine()));
    for i in 0..2 {
        policy_input
            .extend_from_slice(&enc2((g2(&policy.public_key.t[i]) * alpha_p + gen2 * beta_p).into_affine()));
    }
    let pc = fr(&hash_to_fr(&policy_input, b"POLICY_CHALLENGE_GENERATOR_DST_V1"));
    assert_eq!(fr(&policy.public_key.pi.c), pc);
    assert_eq!(fr(&policy.public_key.pi.s), alpha_p + pc * a.inverse().unwrap());
    assert_eq!(fr(&policy.public_key.pi.t), beta_p - pc * b);

    let (r, r1, r2) = (Fr::from(2u64), Fr::from(3u64), Fr::from(4u64));
    let (alpha, beta, gamma) = (Fr::from(5u64), Fr::from(6u64), Fr::from(7u64));
    let delta = vec![Fr::from(8u64), Fr::from(9u64)];
    let blinding = katz::Blinding {
        r: scalar(r),
        nonces: Nonces {
            r1: scalar(r1),
            r2: scalar(r2),
            alpha: scalar(alpha),
            beta: scalar(beta),
            gamma: scalar(gamma),
            delta: delta.iter().map(|v| scalar(*v)).collect(),
        },
    };
    let reveal = vec![1];
    let (kp, zkp) =
        katz::present_with(&pp, &cred, &holder.public_key, &messages, &reveal, &policy.public_key, &blinding)
            .unwrap();
    let h: Vec<G1Affine> = pp.h_vec.iter().map(g1).collect();
    let commitment = g1(&pp.g1) + h[0] * m[0] + h[1] * m[1] + h[2] * m[2];
    let r2_inv = r2.inverse().unwrap();
    let d = (commitment * r2_inv).into_affine();
    let a_bar = (g1(&cred.a) * (r1 * r2_inv)).into_affine();
    let b_bar = (d * r1 + a_bar * (-(e + r))).into_affine();
    assert_eq!(g1(&kp.d), d);
    assert_eq!(g1(&kp.a_bar), a_bar);
    assert_eq!(g1(&kp.b_bar), b_bar);
    // the holder adds s * r and the t of the other issuer
    assert_eq!(g2(&kp.sigma_tilde), (g2(&policy.public_key.s) * r + g2(&policy.public_key.t[0])).into_affine());
    assert_eq!(kp.len, 3);
    assert_eq!(kp.open, vec![1]);
    assert_eq!(fr(&kp.message_list[0]), m[1]);
    let u1 = (d * alpha + a_bar * beta).into_affine();
    let u2 = (d * gamma + h[0] * delta[0] + h[2] * delta[1]).into_affine();
    let mut input = Vec::new();
    for i in 0..3 {
        input.extend_from_slice(&pp.h_vec[i].to_bytes());
    }
    input.extend_from_slice(&[0, 0, 0, 0, 0, 0, 0, 1]);
    input.extend_from_slice(&messages[1].to_bytes());
    input.extend_from_slice(&enc1(a_bar));
    input.extend_from_slice(&enc1(b_bar));
    input.extend_from_slice(&enc1(d));
    input.extend_from_slice(&enc1(u1));
    input.extend_from_slice(&enc1(u2));
    input.extend_from_slice(&policy.public_key.s.to_bytes());
    input.extend_from_slice(&policy.public_key.t[0].to_bytes());
    input.extend_from_slice(&policy.public_key.t[1].to_bytes());
    let c = fr(&hash_to_fr(&input, b"MY_CHALLENGE_GENERATOR_DST_Issuer_Hiding_V1"));
    assert_eq!(fr(&zkp.c), c);
    assert_eq!(fr(&zkp.s), alpha + c * r1);
    assert_eq!(fr(&zkp.t), beta - c * (e + r));
    assert_eq!(fr(&zkp.z), gamma + c * r2);
    assert_eq!(fr(&zkp.v[0]), delta[0] - c * m[0]);
    assert_eq!(fr(&zkp.v[1]), delta[1] - c * m[2]);
    assert_eq!(katz::verify_present(&pp, &policy, &kp, &zkp), Ok(true));
    // the pairing that binds the randomized credential to the issuer key
    assert_eq!(
        Bls12_381::pairing(a_bar, (g2(&holder.public_key.0) + gen2 * (-r)).into_affine()),
        Bls12_381::pairing(b_bar, gen2)
    );

    // the proof for a known issuer has the same core and no policy part
    let (pk, pz) = bbs_proof::prove_with(&pp, &cred, &messages, &reveal, &blinding.nonces).unwrap();
    assert_eq!(g1(&pk.d), d);
    assert_eq!(g1(&pk.a_bar), a_bar);
    assert_eq!(g1(&pk.b_bar), (d * r1 + a_bar * (-e)).into_affine());
    assert_eq!(fr(&pz.t), beta - fr(&pz.c) * e);
    assert_eq!(bbs_proof::verify_proof(&pp, &holder.public_key, &pk, &pz), Ok(true));
    assert_eq!(
        bbs_proof::verify_proof(&pp, &other.public_key, &pk, &pz),
        Err(Error::ProofVerificationFailed(issuer_hiding::error::ProofCheck::PairingBinding))
    );
    let _ = Fr::MODULUS;
}
