# ip_report

Analyzes the IP addresses in log files: which ones made how many requests, with how many bytes, and
whose they are.

`src/` is the library. Verus proves of each of its functions what the contract states; what is not
proved are the calls into other crates, whose contracts stand beside them. `app/` is the program
around it: the command line, files, the database, the network and the terminal.

| Modules | What they are about |
|---|---|
| `text`, `lists`, `wording` | text, numbers and sizes |
| `address`, `pattern` | addresses and networks; regular expressions |
| `parsers`, `log`, `tally` | reading log lines and counting requests |
| `ranking`, `sorting`, `selection` | which addresses are shown, and in which order |
| `cloud`, `ranges`, `feeds`, `refresh`, `classify` | cloud providers and their address ranges |
| `records`, `lookup`, `batch` | what is known of an address, and how it is looked up |
| `groups`, `table`, `plain`, `display`, `screen` | the report, as a table, as plain text and on a screen |
| `options` | the options of the command line |

The laws of the library, which relate several functions or all states, are the public proof functions
whose names start with `law_`.
