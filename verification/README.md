# spade_core

Verified core of a toolkit for simulation cells of ABO3 perovskites
(SrTiO3): reading VASP POSCAR and XDATCAR files, checking what a reference or
simulated cell is built from, sorting the atoms of a cell into the A, B and X
sites in a fixed order, choosing nearest neighbours, grouping cells into bins
and averaging observables, the discrete steps of k-means clustering, and the
decisions of the gradient descent that aligns cells.

The library in `src/` is verified with Verus. It holds no floating-point
arithmetic: measured quantities enter as integer keys that order as
`f64::total_cmp` does (`order::total_order_key`), as flags, or through
closures of the caller. `app/` is the program around it: file I/O, the
floating-point geometry, and the clustering of B-site environments.
