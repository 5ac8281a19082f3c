# flow_contrast

Finds the uniform gain that lifts low-contrast gray frames over the contrast
threshold of a Farneback flow solve, and applies it.

`src/` is a library verified with Verus:

| module        | what it holds |
| ------------- | ------------- |
| `sampling`    | which frames and pixels are measured, how many frames at once |
| `smooth`      | separable convolution with replicated borders |
| `determinant` | the structure-tensor determinants of one frame |
| `gain`        | from determinants to a gain, from a gain to scaled frames |
| `laws`        | what holds of the parts and of the whole, one file to a subject |
| `image`       | frames, expansions and the parameters of the solve |
| `arithmetic`  | the number types, and the functions that contracts speak of |
| `stages`      | the pipeline stages in front of the solve, likewise |
| `parallel`    | calls into rayon, trusted |
| `order`       | sorting of keys; the call of `sort_unstable` is trusted |

The library computes in whatever number types implement `Arithmetic`. Neither
that trait nor `FlowStages` promises anything of a result. A contract reads: for
every `Semantics` that describes what the operations return, the result is the
value that the specification computes with that semantics.

A contract asks for a description of no more operations than it goes through.
The single-precision operations that the measurement goes through have one result
for given operands, but for the bits of a NaN, so there all NaNs are to be taken
as one number; none is ever kept as a determinant. The gain also goes through
`powf`, whose precision the standard library leaves open. So the contracts of the
gain come in two forms: one for a power that is a function of its operands, and
one that holds whatever the call returned.

The laws ask of the arithmetic what they need and no more. `laws::binary` says what
binary floating point is, results that are the exact ones rounded to nearest, and
that five of them follow from it: the order and the sign that smoothing keeps and
transposition there, growth and inverse for gains that are powers of two in
`laws::powers`.

`app/` holds the `f32` and `f64` instance. `tests/` runs the library on an instance
of its own, with the same operations and a polynomial expansion of the usual kind
in front.
