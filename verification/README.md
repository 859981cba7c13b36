# google_img_translate

Translates the images of a directory with the image page of Google Translate, driven through a
local Chrome, and saves each result under its original name. Subdirectories are entered unless
that is switched off, and the output directory repeats their structure. A result that exists is
skipped unless it is to be overwritten.

- `src/` is the library: the decisions of the program, written in Verus and proved against its
  contracts. `law_...` proof functions state what holds across several steps.
- `app/` is the program: the command line, the window, the file system and the browser.
- `tests/` runs the library.

Calls into `base64` and `serde_json`, and one sort of std, stand behind small functions marked
`#[verifier::external_body]`; the comment above each says what is believed of the call.

## Command line

| Option | Meaning | Default |
|---|---|---|
| `-i, --input <DIR>` | directory with the images | required |
| `-o, --output <DIR>` | directory for the results, made if missing | required |
| `-t, --target <CODE>` | target language | `en` |
| `-s, --source <CODE>` | source language, `auto` to detect it | `auto` |
| `--timeout <SECONDS>` | limit for one image | `90` |
| `--headless` | no browser window | off |
| `--chrome <PATH>` | browser to run | searched for |
| `--overwrite` | make existing results again | off |
| `--no-recursive` | leave subdirectories out | off |

Without options the window opens. `GIMG_INPUT`, `GIMG_OUTPUT`, `GIMG_TARGET` and `GIMG_SOURCE`
fill it in, and `GIMG_AUTOSTART=1` starts the batch at once.
