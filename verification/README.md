# recommand_sys

A movie search and hybrid recommendation system over MovieLens-style data
(`u.item` catalogue, `u.data` ratings).

- `src/` is the verified library: reading and writing the data files (with
  round-trip laws), the rating index grouped by user and movie, search filtering
  and query matching, content-feature extraction, knowledge-rule facts, the
  time-ordered holdout split, the dense index of the matrix-factorization model,
  ranking hit counts, genre diversity counts, command-line option lookup and the
  fixed report sections.
- `app/` is the program around it: file I/O, the command line, and every part
  that computes with floating-point numbers (similarities, scores, blending
  weights, training, metrics and the report tables).
- `tests/` exercises the library on concrete values.
