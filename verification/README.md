# ia-get

Downloads the files of an item of the Internet Archive: all of them, or those
that pass filters by extension; one after the other or in parallel; with cookies,
a cap on the rate, resumed transfers and checked MD5 hashes.

The library in `src/` decides, and Verus proves what it decides. The program in
`app/` reads, sends and prints around it.

| Module | What it holds |
|--------|---------------|
| `text`, `numbers`, `order` | texts as sequences of characters, decimal numbers, sorted sets of texts |
| `error` | errors, and how interruptions are told from failures |
| `config` | the configuration file |
| `cli` | what the user asks for |
| `urls`, `headers`, `cookies` | URLs, header values, and which cookies go with which request |
| `filters`, `sanitize`, `paths`, `listing`, `plan` | which files are downloaded, from where and to where |
| `units`, `speed`, `bandwidth` | sizes and times, the speed of a transfer, the cap on all transfers |
| `transfer`, `single`, `batch` | the transfer of a file, the download of a file, the downloads of all files |
| `digest` | MD5 hashes |
| `paint`, `messages`, `bars`, `ordered` | coloured lines, what is said, progress bars, output in the order of the files |

Where work outside the library alternates with decisions (`transfer`, `single`,
`batch`, `bandwidth`), the module takes events and returns actions.

Proof functions whose names start with `law_` state what holds of the library as
a whole. Functions marked `external_body`, and `assume_specification` items, are
what is believed of other crates and of the standard library.
