# Functional commitment

The parts of a function-hiding functional commitment that turn a compiled arithmetic circuit into a
constraint system and tie a committed witness to the public inputs and outputs, with proofs in Verus.
This is experimental cryptographic code and not meant for production.

- `ac_bridge`: adds a circuit, given by three sparse matrices and an assignment, to a constraint
  system. `satisfaction` proves what that means: which variable each column becomes, and that the
  constraints hold exactly where the matrices agree on the values of the columns. These are the
  assigned values, save that the column of the constant is one whatever is assigned to it.
- `well_formation`: Lagrange bases, vanishing polynomials and their normal form. `interpolation` proves
  what they are for: interpolation, uniqueness, divisibility, and the well-formation oracle, which is
  zero on the domain where the witness has the public values, and forces these values where it is.
- `fibonacci`: the steps of a circuit for two members of a Fibonacci sequence.
- `r1cs_info`: the size of the matrices of a circuit.
- `modular`, `poly`, `limbs`: residues and polynomials in mathematical terms.
- `field`, `dense`, `r1cs`: what the library needs of a field, a polynomial and a constraint system.
- `bn254`, `bls12_381`, `bn254_system`: these for the `ark` crates. Calls into those crates stand behind
  functions marked `external_body`, whose doc comments say what is taken on trust.

`app/` prints the size of the matrices of Fibonacci circuits, and hands circuits of `ac_compiler` to
`ark_relations`.
