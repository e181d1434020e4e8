# dial_theory

Cultural dial positions for agent personality: traditions as points on a 2D
dial, with distances, nearest-neighbour queries, k-means clustering and
evolution timelines.

Layout:

- `src/` — the verified library (Verus). It holds every decision that is made
  on top of the dial's real-valued geometry:
  - `rank`: order keys (`Option<u64>`, compared as the numbers they stand for,
    `None` for not-a-number), first-minimum selection, strict filtering below a bound;
  - `distance`: the metric enum, symmetric pairwise matrices, closest pair;
  - `tradition`: the tradition set, nearest tradition, traditions within a radius;
  - `clustering`: clusters and the k-means assignment step;
  - `evolution`: timelines and step-by-step simulation.
- `app/` — the floating-point geometry (positions, metric formulas, centroids,
  k-means iteration), which calls into the library.
- `tests/` — tests of the library.
