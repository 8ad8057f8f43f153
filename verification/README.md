# respo_route_demo

The logic of a small routed web app built on Respo: the route model and its
URL grammar, the store and how actions change it, and what each page shows.

- `src/` is the library, verified with Verus:
  - `url.rs`: splitting paths and queries, percent encoding and decoding
    (through `ruled_router::utils`), with the decoding of an encoding proved.
  - `query.rs`: query strings read into a key/values map and written back
    (through `ruled_router`'s query parser and formatter). Reading back a
    written query is proved to give the map again when every key is
    non-empty and holds exactly one value, whatever order the keys come in.
  - `text.rs`: character-level helpers, UTF-8 byte counts, decimal numerals.
  - `router.rs`: the routes `/`, `/counter` and `/counter/:id`, matching a
    path, writing a route, navigation, and the round-trip laws.
  - `router_util.rs`: the standalone router helpers.
  - `store.rs`: count and route, and how each action changes them; a
    change to Respo's states tree is handed back to the program that holds it.
  - `pages.rs`: the texts of the navigation links and of each page.
- `app/` is the browser program: Respo views, history and popstate handling,
  local storage through serde.
- `tests/` runs the library on concrete paths and routes.
