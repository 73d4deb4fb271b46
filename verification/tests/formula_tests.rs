use ark_bls12_381::{Bls12_381, Fr, G1Affine, G2Affine};
use ark_ec::pairing::{Pairing, PairingOutput};
use ark_ec::{AffineRepr, CurveGroup};
use ark_ff::Field;
use ark_serialize::{CanonicalDeserialize, CanonicalSerialize};
use issuer_hiding::bbs::SecretKey;
use issuer_hiding::bobolz;
use issuer_hiding::error::{Error, ProofCheck};
use issuer_hiding::groth;
use issuer_hiding::groth1;
use issuer_hiding::groth2;
use issuer_hiding::group::{G1, G2};
use issuer_hiding::hashing::hash_to_fr;
use issuer_hiding::issuer;
use issuer_hiding::ps;
use issuer_hiding::sanders;
use issuer_hiding::scalar::Scalar;
use issuer_hiding::shigeo;
use issuer_hiding::verifier_bbs;

fn fr(s: &Scalar) -> Fr {
    Fr::deserialize_compressed(&s.to_bytes()[..]).unwrap()
}

fn scalar(x: Fr) -> Scalar {
    let mut bytes = [0u8; 32];
    x.serialize_compressed(&mut bytes[..]).unwrap();
    Scalar::from_bytes(&bytes).unwrap()
}

fn small(x: u64) -> Fr {
    Fr::from(x)
}

fn g1(p: &G1) -> G1Affine {
    G1Affine::deserialize_compressed(&p.to_bytes()[..]).unwrap()
}

fn g2(p: &G2) -> G2Affine {
    G2Affine::deserialize_compressed(&p.to_bytes()[..]).unwrap()
}

fn enc1(p: G1Affine) -> Vec<u8> {
    let mut bytes = Vec::new();
    p.serialize_compressed(&mut bytes).unwrap();
    bytes
}

fn enc2(p: G2Affine) -> Vec<u8> {
    let mut bytes = Vec::new();
    p.serialize_compressed(&mut bytes).unwrap();
    bytes
}

fn enct(p: PairingOutput<Bls12_381>) -> Vec<u8> {
    let mut bytes = Vec::new();
    p.serialize_compressed(&mut bytes).unwrap();
    bytes
}

fn pair(p: G1Affine, q: G2Affine) -> PairingOutput<Bls12_381> {
    Bls12_381::pairing(p, q)
}

#[test]
fn signed_list_presentation_values() {
    let pp = shigeo::par_gen().unwrap();
    let (x, e, xv, ev) = (small(31), small(11), small(71), small(13));
    let ip = shigeo::issuer_parameters(&pp, 3);
    let holder = issuer::key_pair_from(&ip, SecretKey(scalar(x))).unwrap();
    let other = issuer::key_pair_from(&ip, SecretKey(scalar(small(47)))).unwrap();
    let m = vec![small(3), small(4), small(5)];
    let messages: Vec<Scalar> = m.iter().map(|v| scalar(*v)).collect();
    let cred = issuer::sign_with(&ip, &holder.secret_key, &messages, &scalar(e)).unwrap();
    assert_eq!(shigeo::verify(&pp, &holder.public_key, &messages, &cred), Ok(true));
    let vp = verifier_bbs::PublicParameters { gbar1: pp.gbar1, gbar2: pp.gbar2 };
    let verifier = verifier_bbs::key_pair_from(&vp, SecretKey(scalar(xv))).unwrap();
    let entry = |key: &issuer::PublicKey| shigeo::TrustedIssuerCredential {
        ipk: *key,
        cred: verifier_bbs::sign_with(&vp, &verifier.secret_key, &key.0, &scalar(ev)).unwrap(),
    };
    let policy = (verifier.public_key, vec![entry(&other.public_key), entry(&holder.public_key)]);
    assert_eq!(shigeo::verify_list(&pp, &policy), Ok(true));

    let (r, r1, r2, r3) = (small(2), small(3), small(4), small(5));
    let (a1, a2, b1, b2, c1, c2, d2) = (small(6), small(7), small(8), small(9), small(10), small(12), small(14));
    let d1 = vec![small(15), small(16)];
    let blinding = shigeo::Blinding {
        r: scalar(r),
        r_1: scalar(r1),
        r_2: scalar(r2),
        r_3: scalar(r3),
        alpha1: scalar(a1),
        alpha2: scalar(a2),
        beta1: scalar(b1),
        beta2: scalar(b2),
        gamma1: scalar(c1),
        gamma2: scalar(c2),
        delta1: d1.iter().map(|v| scalar(*v)).collect(),
        delta2: scalar(d2),
    };
    let reveal = vec![1];
    let (kp, zkp) =
        shigeo::present_with(&pp, &cred, &holder.public_key, &messages, &reveal, &policy, &blinding).unwrap();
    let h: Vec<G1Affine> = ip.h_vec.iter().map(g1).collect();
    let commitment = g1(&pp.g1) + h[0] * m[0] + h[1] * m[1] + h[2] * m[2];
    let (ri, r2i, r3i) = (r.inverse().unwrap(), r2.inverse().unwrap(), r3.inverse().unwrap());
    let d_1 = (commitment * r2i).into_affine();
    let a_bar1 = (g1(&cred.a) * (r1 * r2i * ri)).into_affine();
    let b_bar1 = (d_1 * r1 + a_bar1 * (-(e * r))).into_affine();
    let ipk = g2(&holder.public_key.0);
    let ipk_rand = (ipk * r).into_affine();
    let d_2 = ((g2(&pp.gbar2) + ipk) * r3i).into_affine();
    let a_bar2 = (g2(&policy.1[1].cred.a) * (r * r3i)).into_affine();
    let b_bar2 = (d_2 * r + a_bar2 * (-ev)).into_affine();
    let u_1 = (d_1 * a1 + a_bar1 * b1).into_affine();
    let u_2 = (d_1 * c1 + h[0] * d1[0] + h[2] * d1[1]).into_affine();
    let u_3 = (d_2 * a2 + a_bar2 * b2).into_affine();
    let u_4 = (d_2 * c2 + g2(&pp.gbar2) * d2).into_affine();
    assert_eq!(g1(&kp.d_1), d_1);
    assert_eq!(g1(&kp.a_bar1), a_bar1);
    assert_eq!(g1(&kp.b_bar1), b_bar1);
    assert_eq!(g1(&kp.u_1), u_1);
    assert_eq!(g1(&kp.u_2), u_2);
    assert_eq!(g2(&kp.ipk_rand), ipk_rand);
    assert_eq!(g2(&kp.d_2), d_2);
    assert_eq!(g2(&kp.a_bar2), a_bar2);
    assert_eq!(g2(&kp.b_bar2), b_bar2);
    assert_eq!(g2(&kp.u_3), u_3);
    assert_eq!(g2(&kp.u_4), u_4);
    let mut input = Vec::new();
    for i in 0..3 {
        input.extend_from_slice(&ip.h_vec[i].to_bytes());
    }
    input.extend_from_slice(&[0, 0, 0, 0, 0, 0, 0, 1]);
    input.extend_from_slice(&messages[1].to_bytes());
    for p in [a_bar1, b_bar1, d_1, u_1, u_2] {
        input.extend_from_slice(&enc1(p));
    }
    for p in [ipk_rand, a_bar2, b_bar2, d_2, u_3, u_4] {
        input.extend_from_slice(&enc2(p));
    }
    for listed in &policy.1 {
        input.extend_from_slice(&listed.ipk.0.to_bytes());
        input.extend_from_slice(&listed.cred.a.to_bytes());
        input.extend_from_slice(&listed.cred.e.to_bytes());
    }
    let c = fr(&hash_to_fr(&input, b"MY_CHALLENGE_GENERATOR_DST_Issuer_Hiding_V1"));
    assert_eq!(fr(&kp.c), c);
    assert_eq!(fr(&zkp.s1), a1 + c * r1);
    assert_eq!(fr(&zkp.s2), a2 + c * r);
    assert_eq!(fr(&zkp.t1), b1 - c * (e * r));
    assert_eq!(fr(&zkp.t2), b2 - c * ev);
    assert_eq!(fr(&zkp.z1), c1 + c * r2);
    assert_eq!(fr(&zkp.z2), c2 + c * r * r3);
    assert_eq!(fr(&zkp.v1[0]), d1[0] - c * m[0]);
    assert_eq!(fr(&zkp.v1[1]), d1[1] - c * m[2]);
    assert_eq!(fr(&zkp.v2), d2 - c * r);
    assert_eq!(shigeo::verify_presentation(&pp, &policy, &kp, &zkp), Ok(true));

    // a credential of another issuer under the listed key fails the pairing that binds it
    let foreign = issuer::sign_with(&ip, &other.secret_key, &messages, &scalar(e)).unwrap();
    let (kp, zkp) =
        shigeo::present_with(&pp, &foreign, &holder.public_key, &messages, &reveal, &policy, &blinding)
            .unwrap();
    assert_eq!(
        shigeo::verify_presentation(&pp, &policy, &kp, &zkp),
        Err(Error::ProofVerificationFailed(ProofCheck::PairingBinding))
    );
    // where a key is listed twice, the later entry is used
    let twice = (verifier.public_key, vec![policy.1[1], policy.1[0], policy.1[1]]);
    let (kp, zkp) =
        shigeo::present_with(&pp, &cred, &holder.public_key, &messages, &reveal, &twice, &blinding).unwrap();
    assert_eq!(shigeo::verify_presentation(&pp, &twice, &kp, &zkp), Ok(true));
}

#[test]
fn groth_presentation_values() {
    let pp = bobolz::par_gen().unwrap();
    let (x, xv) = (small(31), small(71));
    let ip = groth1::PublicParameters { g1: pp.g1, g2: pp.g2, y1: pp.y1 };
    let vp = groth2::PublicParameters { g1: pp.g1, g2: pp.g2, y2: pp.y2 };
    let holder = groth1::key_pair_from(&ip, groth::SecretKey(scalar(x))).unwrap();
    let other = groth1::key_pair_from(&ip, groth::SecretKey(scalar(small(47)))).unwrap();
    let verifier = groth2::key_pair_from(&vp, groth::SecretKey(scalar(xv))).unwrap();
    let m = vec![small(3), small(4), small(5)];
    let messages: Vec<Scalar> = m.iter().map(|v| scalar(*v)).collect();
    let h: Vec<G1Affine> = pp.h.iter().map(g1).collect();
    let point = (h[0] * m[0] + h[1] * m[1] + h[2] * m[2]).into_affine();
    let mut point_bytes = [0u8; 48];
    point_bytes.copy_from_slice(&enc1(point));
    let cred = groth1::sign_with(&ip, &holder.secret_key, &G1::from_bytes(&point_bytes).unwrap(), &scalar(small(9)))
        .unwrap();
    assert_eq!(bobolz::verify(&pp, &cred, &messages, &holder.public_key), Ok(true));
    let entry = |key: &groth1::PublicKey| bobolz::TrustedIssuerCredential {
        ipk: *key,
        cred: groth2::sign_with(&vp, &verifier.secret_key, &key.0, &scalar(small(13))).unwrap(),
    };
    let policy = (verifier.public_key, vec![entry(&holder.public_key), entry(&other.public_key)]);
    assert_eq!(bobolz::verify_list(&pp, &policy), Ok(true));

    let (rho1, rho2, al, be, ga, de) = (small(2), small(3), small(4), small(5), small(6), small(7));
    let (r1, r2, r3, r4) = (small(8), small(9), small(10), small(11));
    let r5 = vec![small(12), small(14)];
    let blinding = bobolz::Blinding {
        rho1: scalar(rho1),
        rho2: scalar(rho2),
        alpha: scalar(al),
        beta: scalar(be),
        gamma: scalar(ga),
        delta: scalar(de),
        r1: scalar(r1),
        r2: scalar(r2),
        r3: scalar(r3),
        r4: scalar(r4),
        r5: r5.iter().map(|v| scalar(*v)).collect(),
    };
    let open = vec![0];
    let (kp, zkp) =
        bobolz::present_with(&pp, &cred, &holder.public_key, &messages, &policy, &open, &blinding).unwrap();
    let inv = |v: Fr| v.inverse().unwrap();
    let r2_point = (g2(&cred.r2) * rho1).into_affine();
    let s1 = (g1(&cred.s1) * inv(rho1) * inv(al)).into_affine();
    let t1 = (g1(&cred.t1) * inv(rho1) * inv(be)).into_affine();
    let blind_ipk = (g2(&holder.public_key.0) * inv(ga)).into_affine();
    let listed = &policy.1[0].cred;
    let lr1 = (g1(&listed.r1) * rho2).into_affine();
    let ls2 = (g2(&listed.s2) * inv(rho2)).into_affine();
    let lt2 = (g2(&listed.t2) * inv(rho2) * inv(de)).into_affine();
    assert_eq!(g2(&kp.blind_cred.r2), r2_point);
    assert_eq!(g1(&kp.blind_cred.s1), s1);
    assert_eq!(g1(&kp.blind_cred.t1), t1);
    assert_eq!(g2(&kp.blind_ipk.0), blind_ipk);
    assert_eq!(g1(&kp.blind_issuer_sig.r1), lr1);
    assert_eq!(g2(&kp.blind_issuer_sig.s2), ls2);
    assert_eq!(g2(&kp.blind_issuer_sig.t2), lt2);
    let k_ipk = (blind_ipk * (-r3)).into_affine();
    let hidden = (h[1] * (-r5[0]) + h[2] * (-r5[1])).into_affine();
    let u1 = pair((s1 * r1).into_affine(), r2_point) + pair(g1(&pp.g1), k_ipk);
    let u2 = pair((t1 * r2).into_affine(), r2_point) + pair(g1(&pp.y1), k_ipk) + pair(hidden, g2(&pp.g2));
    let u3 = pair(lr1, (lt2 * r4).into_affine()) + pair(g1(&pp.g1), k_ipk);
    let mut input = Vec::new();
    input.extend_from_slice(&enc2(r2_point));
    input.extend_from_slice(&enc1(s1));
    input.extend_from_slice(&enc1(t1));
    input.extend_from_slice(&enc2(blind_ipk));
    input.extend_from_slice(&enc1(lr1));
    input.extend_from_slice(&enc2(ls2));
    input.extend_from_slice(&enc2(lt2));
    for i in 0..3 {
        input.extend_from_slice(&pp.h[i].to_bytes());
    }
    input.extend_from_slice(&[0, 0, 0, 0, 0, 0, 0, 0]);
    input.extend_from_slice(&messages[0].to_bytes());
    input.extend_from_slice(&enct(u1));
    input.extend_from_slice(&enct(u2));
    input.extend_from_slice(&enct(u3));
    for listed in &policy.1 {
        input.extend_from_slice(&listed.ipk.0.to_bytes());
        input.extend_from_slice(&listed.cred.r1.to_bytes());
        input.extend_from_slice(&listed.cred.s2.to_bytes());
        input.extend_from_slice(&listed.cred.t2.to_bytes());
    }
    let c = fr(&hash_to_fr(&input, b"CHALLENGE_GENERATOR_DST_Bobolz_Issuer_Hiding_V1"));
    assert_eq!(fr(&zkp.c), c);
    assert_eq!(fr(&zkp.z1), r1 + c * al);
    assert_eq!(fr(&zkp.z2), r2 + c * be);
    assert_eq!(fr(&zkp.z3), r3 + c * ga);
    assert_eq!(fr(&zkp.z4), r4 + c * de);
    assert_eq!(fr(&zkp.z5[0]), r5[0] + c * m[1]);
    assert_eq!(fr(&zkp.z5[1]), r5[1] + c * m[2]);
    assert_eq!(bobolz::verify_present(&pp, &policy, &(kp.clone(), zkp.clone())), Ok(true));
    // a list signature whose first equation fails is not bound to the policy
    let mut unbound = kp.clone();
    unbound.blind_issuer_sig.s2 = kp.blind_issuer_sig.t2;
    let outcome = bobolz::verify_present(&pp, &policy, &(unbound, zkp.clone()));
    assert_eq!(outcome, Err(Error::ProofVerificationFailed(ProofCheck::Challenge)));
}

#[test]
fn pointcheval_sanders_values() {
    let pp = ps::par_gen().unwrap();
    let (x, y) = (small(11), vec![small(2), small(3), small(5)]);
    let pair_keys = ps::key_pair_from(
        &pp,
        ps::SecretKey { x: scalar(x), y: y.iter().map(|v| scalar(*v)).collect() },
    );
    let gen1 = g1(&pp.g1);
    let gen2 = g2(&pp.g2);
    assert_eq!(g2(&pair_keys.pk.pk_x), (gen2 * x).into_affine());
    for i in 0..3 {
        assert_eq!(g2(&pair_keys.pk.pk_y[i]), (gen2 * y[i]).into_affine());
    }
    let m = vec![small(10), small(20), small(30)];
    let messages: Vec<Scalar> = m.iter().map(|v| scalar(*v)).collect();
    let rho = small(7);
    let sig = ps::sign_with(&pp, &pair_keys.sk, &messages, &scalar(rho)).unwrap();
    let w = x + y[0] * m[0] + y[1] * m[1] + y[2] * m[2];
    assert_eq!(g1(&sig.sigma1), (gen1 * rho).into_affine());
    assert_eq!(g1(&sig.sigma2), (gen1 * (rho * w)).into_affine());
    let (r, t, kt) = (small(3), small(4), small(6));
    let k = vec![small(5), small(8)];
    let blinding = ps::Blinding {
        r: scalar(r),
        t: scalar(t),
        k_i: k.iter().map(|v| scalar(*v)).collect(),
        k_t: scalar(kt),
    };
    let token = ps::create_proof_with(&pp, &pair_keys.pk, &sig, &messages, &vec![1], &blinding).unwrap();
    let s1 = (g1(&sig.sigma1) * r).into_affine();
    let s2 = ((g1(&sig.sigma2) + g1(&sig.sigma1) * t) * r).into_affine();
    assert_eq!(g1(&token.sigma1), s1);
    assert_eq!(g1(&token.sigma2), s2);
    let k_input = (gen2 * kt + g2(&pair_keys.pk.pk_y[0]) * k[0] + g2(&pair_keys.pk.pk_y[2]) * k[1]).into_affine();
    let commitment = pair(s1, k_input);
    let mut input = Vec::new();
    input.extend_from_slice(&enc1(s1));
    input.extend_from_slice(&enc1(s2));
    input.extend_from_slice(&[0, 0, 0, 0, 0, 0, 0, 1]);
    input.extend_from_slice(&messages[1].to_bytes());
    input.extend_from_slice(&enct(commitment));
    let c = fr(&hash_to_fr(&input, b"MY_CHALLENGE_GENERATOR_DST_V1"));
    assert_eq!(fr(&token.proof.c), c);
    assert_eq!(fr(&token.proof.z_i[0]), k[0] + c * m[0]);
    assert_eq!(fr(&token.proof.z_i[1]), k[1] + c * m[2]);
    assert_eq!(fr(&token.proof.z_t), kt + c * t);
    assert_eq!(ps::verify_proof(&pp, &pair_keys.pk, &token), Ok(true));
}

#[test]
fn aggregate_policy_values() {
    let pp = sanders::par_gen().unwrap();
    let gen1 = g1(&pp.g1);
    let gen2 = g2(&pp.g2);
    assert_eq!(g1(&pp.x1), (gen1 * small(123456789)).into_affine());
    assert_eq!(g2(&pp.x2), (gen2 * small(123456789)).into_affine());
    let y = vec![small(2), small(3)];
    let holder = sanders::key_pair_from(&pp, sanders::SecretKey { y: y.iter().map(|v| scalar(*v)).collect() });
    let other = sanders::key_pair_from(&pp, sanders::SecretKey { y: vec![scalar(small(5)), scalar(small(7))] });
    let m = vec![small(10), small(20)];
    let messages: Vec<Scalar> = m.iter().map(|v| scalar(*v)).collect();
    let rho = small(7);
    let sig = sanders::sign_with(&pp, &holder.sk, &messages, &scalar(rho)).unwrap();
    assert_eq!(g1(&sig.sigma1), (gen1 * rho).into_affine());
    assert_eq!(
        g1(&sig.sigma2),
        (g1(&pp.x1) * rho + gen1 * (rho * (y[0] * m[0] + y[1] * m[1]))).into_affine()
    );
    let ipks = vec![other.pk.clone(), holder.pk.clone()];
    let (a, b) = (small(4), vec![small(5), small(6)]);
    let rr = vec![small(7), small(8), small(9)];
    let nonces = sanders::PolicyNonces {
        a: scalar(a),
        b: b.iter().map(|v| scalar(*v)).collect(),
        r: rr.iter().map(|v| scalar(*v)).collect(),
    };
    let (policy, policy_proof) = sanders::set_policy_with(&pp, &ipks, &nonces).unwrap();
    let others = small(1);
    assert_eq!(g2(&policy.ppk.s), (gen2 * a).into_affine());
    let mut input = Vec::new();
    for key in &ipks {
        for point in &key.pk_y {
            input.extend_from_slice(&point.to_bytes());
        }
    }
    input.extend_from_slice(&policy.ppk.s.to_bytes());
    for j in 0..2 {
        assert_eq!(g2(&policy.ppk.vec_b[j]), (gen2 * (b[j] * others)).into_affine());
        input.extend_from_slice(&policy.ppk.vec_b[j].to_bytes());
    }
    for i in 0..2 {
        for j in 0..2 {
            assert_eq!(g2(&policy.ppk.t[i][j]), ((g2(&ipks[i].pk_y[j]) + gen2 * b[j]) * a).into_affine());
            input.extend_from_slice(&policy.ppk.t[i][j].to_bytes());
        }
    }
    let policy_bytes = input.clone();
    input.extend_from_slice(&enc2((g2(&policy.ppk.s) * rr[0]).into_affine()));
    for j in 0..2 {
        input.extend_from_slice(&enc2((gen2 * (rr[j + 1] * others)).into_affine()));
    }
    for i in 0..2 {
        for j in 0..2 {
            input.extend_from_slice(&enc2((g2(&policy.ppk.t[i][j]) * rr[0] + gen2 * rr[j + 1]).into_affine()));
        }
    }
    let pc = fr(&hash_to_fr(&input, b"POLICY_CHALLENGE_GENERATOR_DST_V1"));
    assert_eq!(fr(&policy_proof.c), pc);
    assert_eq!(fr(&policy_proof.vec_z[0]), rr[0] + pc * a.inverse().unwrap());
    assert_eq!(fr(&policy_proof.vec_z[1]), rr[1] - pc * b[0]);
    assert_eq!(fr(&policy_proof.vec_z[2]), rr[2] - pc * b[1]);
    assert_eq!(sanders::audit_policy(&pp, &policy.ppk, &policy_proof), Ok(true));

    let (r1, r2, k) = (small(3), small(4), small(5));
    let blinding = sanders::Blinding { r_1: scalar(r1), r_2: scalar(r2), k_i: vec![scalar(k)] };
    let token =
        sanders::create_proof_with(&pp, &holder.pk, &sig, &policy.ppk, &messages, &vec![0], &blinding).unwrap();
    let s1 = (g1(&sig.sigma1) * r1).into_affine();
    let s2 = (g1(&sig.sigma2) * r1 + s1 * (-r2)).into_affine();
    // the rows of the other issuer, weighted by the attributes
    let tilde =
        (g2(&policy.ppk.s) * r2 + g2(&policy.ppk.t[0][0]) * m[0] + g2(&policy.ppk.t[0][1]) * m[1]).into_affine();
    assert_eq!(g1(&token.sigma1), s1);
    assert_eq!(g1(&token.sigma2), s2);
    assert_eq!(g2(&token.sigma_tilde), tilde);
    let k_input =
        ((g2(&policy.ppk.vec_b[1]) + g2(&ipks[0].pk_y[1]) + g2(&ipks[1].pk_y[1])) * k).into_affine();
    let mut input = enct(pair(s1, k_input));
    input.extend_from_slice(&policy_bytes);
    input.extend_from_slice(&enc1(s1));
    input.extend_from_slice(&enc1(s2));
    input.extend_from_slice(&enc2(tilde));
    input.extend_from_slice(&[0, 0, 0, 0, 0, 0, 0, 0]);
    input.extend_from_slice(&messages[0].to_bytes());
    let c = fr(&hash_to_fr(&input, b"MY_CHALLENGE_GENERATOR_DST_V1"));
    assert_eq!(fr(&token.proof.c), c);
    assert_eq!(fr(&token.proof.z_i[0]), k + c * m[1]);
    assert_eq!(sanders::verify_proof(&pp, &token, &policy), Ok(true));
    let _ = G2Affine::identity();
}
