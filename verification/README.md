# crown_snark

Verified core of a SNARK that checks CROWN bounds of neural networks over the
scalar field of BN254. The functions under `src/` are checked by Verus against
their contracts. The contracts of the few wrappers around outside crates, in
`field`, `transcript` and `qarray`, are believed without proof; each says which
outside function it speaks of.

## What the library proves

For each check there is a prover and a verifier. The verifier's contract is
exact: it returns the verdict that a mathematical description of the check
gives on the proof and on the transcript. The prover's contract says when it
refuses, what its proof consists of, and that the verifier accepts the proof
where the statement holds and the data are the committed ones.

## Layout

- `field`, `ring`, `poly`, `mle`, `mle_laws`, `matrix_laws`: the field,
  polynomials, multilinear extensions and tables of matrices.
- `transcript`, `pcs`, `clear_pcs`, `openings`: the Fiat-Shamir transcript, the
  commitment scheme as a trait, a scheme in the clear for tests, and openings.
- `sumcheck`, `eq_two_product`, `inner_product`, `zero_check`, `expr`: sumchecks.
- `logup`, `lookup_pair`, `lookup_laws`, `pos_range`, `table_mle`, `envelope`:
  lookups and their tables.
- `relu_*`: the checks of ReLU relaxations; `relaxation_laws`: what they add up
  to.
- `sshape_*`, `critical_*`: the checks of sigmoid and tanh lines at the
  endpoints and at the critical point.
- `qarray`, `shapes`, `commit`, `commit_pass`, `commit_all`, `architecture`,
  `layer_scale_api`, `range_per_tensor`, `public_binding`: tensors, their
  commitments and shapes, their ranges, and the binding to the statement.
- `linear_*`, `activation_*`, `bias_accumulator*`, `chain_init`, `relu_chain`:
  the steps of a backward pass.
- `hidden_*`: the passes that prove the bounds of hidden layers; `hidden_proving`
  and `hidden_driver` are the moves of a pass's proof and of its check.

`app/` holds what is computed in floating point and the drivers that run the
hidden passes between checks made elsewhere. `tests/` runs the library on the
scheme in the clear.
