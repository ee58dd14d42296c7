# gt_reader

A reader for the graph-tool `gt` binary graph format, verified with Verus.

- `src/byte_iter.rs`: the byte cursor that the readers consume.
- `src/reader.rs`: the header fields, integers in both byte orders, strings, vectors
  and the adjacency lists, each with a specification over the bytes it reads.
- `src/values.rs`: the values of property maps (doubles are kept as bit patterns).
- `src/property_maps.rs`: property map types, their storage and how they are read.
- `src/lib.rs`: `GraphToolGraph` and `parse_gt`, which reads a whole file and is proved
  to agree with `spec_parse_gt`.
- `app/lib.rs`: reading a file from disk (`read_gt`) and turning doubles into `f64`.
