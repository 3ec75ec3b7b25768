# ifs_fractal

An iterated-function-system fractal generator: each map of the system is a
list of plane steps (dilation, shear, rotation, reflection) and a
translation, turned into a 2 by 2 matrix and a column vector; the chaos game
then plots points under randomly chosen maps.

Layout:

- `src/` is the verified library (Verus).
  - `grid.rs`: the mathematical model of a matrix (a sequence of rows), its
    rearrangements, the accumulations that define products and
    determinants, and the laws about them (flip twice is the identity,
    quarter turns compose, the identity is neutral for products, ...).
  - `matrix.rs`: `Matrix<T>`: shape checks, row and column edits, flips and
    quarter turns, element-wise and scalar operations, products,
    determinants, identity and 2-D constructors, and what a printout shows.
    Element arithmetic is passed in as closures.
  - `printout.rs`: the boxed text layout of a printed matrix.
  - `transformation.rs`: the steps of one map and the matrices they build.
  - `controls.rs`: parsing and clamping of what the user types.
  - `chaos.rs`: the chaos-game iteration, for any sequence of chosen maps.
- `tests/`: tests of the library on `f64` matrices.
- `app/`: the GUI program (iced), the floating-point arithmetic and
  trigonometry (libm), and the random sampling (rand).
