# instagrab

Reads Instagram profiles and their recent posts through a Chrome that is signed
in already, and keeps the list of the accounts that a seed account follows.
What is decided on the way is a library that Verus verifies; the program around
it talks to the browser, the network and the disk.

## Layout

`src/` is the library. Its logic is verified; its calls into other crates are
trusted, as said below.

| Module | What it holds |
| --- | --- |
| `cache`, `merge_laws` | the follows file: reading it, merging a harvest into it, and what a merge keeps |
| `config`, `flags` | settings and command-line flags |
| `json`, `double`, `clock`, `text`, `pattern` | documents, doubles by their bits, times, texts, patterns |
| `count`, `rounding` | abbreviated counts such as `12.3K`, with the rounding of doubles |
| `record`, `output`, `images` | the records and alerts that a run writes, and which images it wants |
| `feed`, `profile`, `page` | reading pages of posts, profile headers and the tags of a page |
| `query`, `script`, `session` | captured queries and their replay, the scripts of a page, the session |
| `scan`, `visit`, `follows` | the steps of a scan, of a visit to a profile and of a harvest |
| `run`, `pace`, `shutdown` | a whole run: lists, verdicts, exit codes, waits, stops |

`tests/` runs the library on concrete values. `app/` is the program.

## What is proved

The contracts are stated over plain models: texts are sequences of characters,
documents are trees, records are their views. The functions named `law_...`
state what holds across functions, for instance that a merge never loses an
exclusion, that a harvest that was cut short deletes nobody, that merging the
same harvest again adds and removes nobody, that a page of posts is taken in
once, and that a refused replay is never taken for a logout. Merging again also
leaves the file as it is, unless a line ends with a stray carriage return, which
it then loses.

Calls into serde_json, regex, chrono and fastrand, and a few into the standard
library, stand behind small functions marked `external_body`. Their doc comments
say what is believed of each call.
