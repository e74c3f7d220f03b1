# arc_lang

Verified building blocks of the Arc-Lang streaming language: its runtime's
times, durations, iterators and stream operators, and the rewrites of its
compiler's intermediate representation.

- `src/` is the library, written and proved with Verus:
  - `duration`, `time`: durations and points in time, in nanoseconds;
  - `iterator`: finite iterators and their adaptors;
  - `event`, `ops`: stream events and what each stateless operator does
    with one event;
  - `panes`, `window`, `incremental`: tumbling windows, holistic and
    incremental;
  - `join`: windowed joins of two streams;
  - `source`: the watermarks of a stream made from a sequence;
  - `hir`, `ssa`: the intermediate representation, the rewriting of the
    types it carries, rows, the analysis of mutated variables and the
    conversion of the expressions it handles to single assignments;
  - `mono`: the monomorphisation of types and expressions, the recording
    of the instances they ask for, and the making of each instance;
  - `book`: the grammar markup and the command expansion of the book;
  - `laws`: properties relating several operations.
- `tests/` runs the library on concrete values.
- `app/` runs the operators as asynchronous tasks over channels and holds
  the serialisable copies of events and times.
