# dathagerty

The library behind dathagerty.com, a server-rendered personal site, with its
behaviour stated as contracts and proved with Verus.

- `src/` is the verified library: loading and validating the site's content
  files (`content::embedded`), splitting Markdown documents and building pages
  and posts (`content::markdown`), the post and module orders
  (`content::order`), the repository's queries and the laws they keep
  (`content::laws`, and `content::file_order` for independence from file
  order), the settings (`config`), the path segments and page
  metadata of the routes (`routes`), what the views compute (`views`), the
  asset check (`assets`), request errors (`error`) and the serving loop's
  decisions (`server`). `bindings` holds the declarations of outside types and
  the small trusted functions that call std and outside crates.
- `tests/` exercises the library on concrete content.
- `app/` is the program around it: reading the environment and the embedded
  files, the JSON, YAML and Markdown parsers, the Topcoat router, layout and
  components, and the server loop.
