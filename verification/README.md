# booru_fetch

Downloads posts from image boards (rule34.xxx, rule34.us, rule34video.com,
gelbooru.com, danbooru.donmai.us, nozomi.la): for each link of a link list it
fetches the post page, finds the image or video file and the tags, and saves
the file together with a text file of its tags.

The page reading is a library verified with Verus; the program around it
does the file and network work.

## Layout

- `src/` — the verified library.
  - `text.rs`: string operations (trimming, searching, splitting, joining)
    with their specifications over character sequences.
  - `html.rs`: the model of a parsed HTML document (`HtmlDoc`) and the node
    queries the readers make on it; parsing itself is done by `select`.
  - `pattern.rs`: regular-expression captures through `regex`.
  - `models/types.rs`: sites, media, tags and errors, with their views;
    `models/progress.rs`: the tally of a run and the names files are saved under.
  - `parsers/`: one reader per site, and `common.rs` for what they share.
  - `utility/utils.rs`: site detection, image links, base domains, nozomi
    links, the link list and the tags file; `utility/initializer.rs`: the
    configuration and cookie lookup.
  - `network/`: the headers and request targets that the clients use.
- `tests/` — tests of the library on concrete pages and links.
- `app/` — the command-line program: configuration loading, HTTP clients,
  the download loop, JSON decoding and file output.

## Running

The program reads `config.toml` from the working directory:

```toml
[paths]
links_file = "links.txt"
save_root = "downloads"
sub_dir = "batch"
start_name = "1"

[timings]
request_delay = "1500"

[cookies]
"rule34.xxx" = ""
```

Each non-empty line of the link file that does not start with `#` is a post
link. Media are saved as `<n>.png` or `<n>.mp4`, tags as `<n>.txt`, numbered
from `start_name`.
