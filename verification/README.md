# portfolio

The content engine of a personal portfolio site, verified with Verus, and the
web server around it.

- `src/` is the verified library:
  - `document`: markdown pages with TOML frontmatter (found and rendered by
    the `markdown` crate);
  - `yaml`, `categories`: the categories file, loaded with `yaml_rust`;
  - `project`, `projects`, `keyed`: the project index, projects by id and
    category lists;
  - `order`, `awards`, `sorting`: the order project files are indexed in and
    awards are listed in;
  - `watch`, `site`: what file-watcher events trigger, server settings,
    template data, failed renders and stylesheet paths;
  - `text`: character-level string helpers;
  - `laws`: properties across operations.
- `app/` is the server: file and directory reading, TOML deserialization
  into serde copies of the library's types, handlebars rendering, the
  actix-web routes, the `notify` watchers and the `rsass` compiler.
- `tests/` exercises the library on concrete values.
