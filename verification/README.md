# ad_access

A Windows effective-access evaluator, verified with Verus. Given a security
descriptor and an access token, it computes the access that a principal actually
has.

- `src/` is the library. `check` holds the access check and what it decides as a
  specification; `laws` holds what follows from that for all inputs. The other
  modules are the data: entries, conditions, tokens, descriptors, GUIDs, right
  masks and their mapping.
- `tests/` runs the library on concrete cases.

The library has no dependencies and takes nothing on trust beyond Verus and its
standard library. Parsing SDDL, restricted tokens and hierarchies of object types
are out of scope.
