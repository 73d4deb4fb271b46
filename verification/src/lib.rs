//! Issuer-hiding anonymous credentials over BLS12-381.
//!
//! A holder proves in zero knowledge that it owns a credential signed by one
//! of the issuers that a verifier trusts, and discloses a chosen subset of
//! the signed attributes, without showing which issuer signed.
//!
//! Field and curve arithmetic, the pairing and the hash functions come from
//! the arkworks crates. The library holds every element by its canonical
//! encoding, names what the curve operations return, and states what each
//! of its functions returns over those names.
//!
//! - [`scalar`], [`group`], [`hashing`]: scalars, points, the pairing, and
//!   hashing to each of them.
//! - [`encoding`], [`transcript`], [`linear`], [`setup`]: text and byte
//!   strings, challenge inputs, sums of scaled points and index lists, the
//!   fixed generators.
//! - [`groth`], [`groth1`], [`groth2`]: Groth signatures on a point of
//!   either source group.
//! - [`bbs`], [`issuer`], [`verifier_bbs`]: BBS signatures on an attribute
//!   vector and on an issuer key.
//! - [`ps`]: Pointcheval-Sanders signatures with a disclosure proof.
//! - [`sigma`], [`bbs_proof`]: the proof of knowledge of a BBS signature
//!   with selective disclosure.
//! - [`bobolz`], [`shigeo`]: presentations against a trust list that the
//!   verifier signed entry by entry.
//! - [`katz`], [`sanders`]: presentations against an aggregate policy that
//!   the verifier checks with its policy secrets.
//! - [`algebra`]: the laws of a bilinear group as a hypothesis, under which
//!   the schemes' promises to honest parties are proved.
//!
//! Every operation that draws random scalars has a companion, named with
//! `_with`, that takes the scalars from the caller and is a function of its
//! arguments alone.

pub mod error;
pub mod scalar;
pub mod group;
pub mod hashing;
pub mod transcript;
pub mod linear;
pub mod encoding;
pub mod setup;
pub mod bbs;
pub mod issuer;
pub mod verifier_bbs;
pub mod sigma;
pub mod shigeo;
pub mod bbs_proof;
pub mod katz;
pub mod groth;
pub mod groth1;
pub mod groth2;
pub mod bobolz;
pub mod ps;
pub mod sanders;
pub mod algebra;
