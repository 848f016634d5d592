# j1939

A verified library for SAE J1939 messages: packing values into bit fields
of a payload, the message frame, Q9 fixed-point raw values, and the rules
that the message macros apply to a message layout before they generate
code for it.

- `src/` is the library, checked by Verus.
  - `bitfield`: writing, reading and sign-extending bit fields of up to 16
    bits, with the laws that tie them together (a read gives back what a
    write wrote; writes to disjoint fields leave each other alone and
    commute).
  - `wide_field`: fields of up to 32 bits, written and read as two
    `bitfield` fields, and their sign extension.
  - `message`: the message frame, and what generated `Marshall` and
    `Unmarshall` impls do with it (they call it), with the read-after-write law.
  - `fixed_point`: Q9 raw values.
  - `parse`, `validate`, `field_info`, `codegen`, `docs`: the attribute
    rules, the layout checks, enum registration and values, and the
    generated documentation (laid out with `tabled`).
  - `text`: string comparison, number formatting, line splitting.

The registry of enums is vstd's `StringHashMap` (a `HashMap<String, _>`
with a map view), seen in contracts as a map from name to description.
