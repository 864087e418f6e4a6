# cutile_macro

The code generation behind a set of attribute macros for GPU tile kernels, written and proved
in Verus.

- `rank_instantiation` turns an item with a const generic array (`const S: [i32; N]`) into one
  copy per length, with the array replaced by its dimensions `S_0, S_1, …`.
- `shadow_dispatch` turns a rank-polymorphic operation or trait into a trait, one impl per
  combination of ranks, and a wrapper.
- `kernel_launcher_generator` writes the launcher of a kernel entry point and infers its
  generic arguments from the tensors that are passed.
- `validate_dsl_syntax` says which parameters an entry point may have.

The modules `ast` and `items` hold the syntax that is read and rewritten; `print` writes it
out. Each type has a model, its view, and each function states its result over these models.
The files named `laws.rs` hold what is true of several functions together.

`grammar` is the border to `proc_macro2` and `syn`: whether a text is well formed is asked
there, and nowhere else.

`app/` reads `syn` items into the syntax of the library and turns the results into tokens.
`tests/` runs the library; the generated source is parsed with `syn`.
