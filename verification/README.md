# ezsql

A verified core for a small family of derive and attribute macros:

- `crud`: from an attribute such as
  `#[crud(table_name = "T", funs = [{fn_name = "f", sql_type = "read:single", condition = "id:="}])]`
  it plans, for each function in `funs`, the SQL statement and the shape of the function
  (parameters, row type, single row or batch).
- `Get`, `Set`, `New`: which accessors and which `new` parameters a struct gets.
- `conf`: the arguments of the configuration attribute (`path`, `prefix`, `data_type`).

Layout:

- `src/` is the library, verified with Verus. `text` holds the string operations it needs
  (trim, split, split once, ASCII case), `tools` the statement keywords and snake case,
  `attr` the attribute parser, `sql` the statement planning, `accessor` the accessor
  planning, `conf_macro` the `conf` arguments, `debug` the text form of parsed attributes.
  `field_map` declares the `indexmap::IndexMap` operations that the planning uses.
- `app/` turns `proc_macro2` tokens into the library's tokens, renders the planned
  functions with `quote`, and holds the configuration loading (files, `clap`, `once_cell`)
  and the YAML loading macros.
- `tests/` runs the library on concrete attributes and structs.
