# loadsmith-lab

The validation lab for Loadsmith: it runs integration cases (Loadsmith
against real services in Docker) and bundles of cases, and manages the
origins (git clones or local directories) the cases, bundles and service
images come from.

- `src/` is the library, verified with Verus: origins and their
  registration, item resolution, installs (a state machine the caller
  drives), case expectations and results, bundle entries (another state
  machine), the containers a run starts, image and plugin decisions, and
  the text the report prints.
- `app/` is the `loadsmith-lab` program around it: the command line, the
  Docker daemon (bollard), `git`, the filesystem, YAML/TOML files, and
  coloured output.
- `tests/` runs the library on concrete values.
