# sorot

A 2D vector renderer. `src/` is the verified library: everything in it is exact (integers,
bytes, paths as verb tables generic over the point type, scene bookkeeping) and proved
against its contracts with Verus. `app/` is the program around it: the window, the GPU
resources, and the floating-point geometry (vectors, matrices, colours, curve subdivision,
stroking, distance fields, blurs), which hands the library plain values and gets plain
values back. `tests/` exercises the library.
