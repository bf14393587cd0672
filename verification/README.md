# canvas_dump

Mirrors the courses of a Canvas LMS user (files, pages, announcements,
assignments and modules) into a local directory.

- `src/` is the library, with machine-checked contracts and proofs: text
  and number handling, safe names and paths, the ordering and
  de-duplication of file listings, the registry of local paths and its
  backup lines, the reading of error replies, the walk over quiz attempts,
  and the decisions taken for each record of a course.
- `app/` is the program around it: requests to the service, decoding of the
  records it returns, and the file-system work.
- `tests/` exercises the library on concrete values.
