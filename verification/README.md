# toprss

A command-line tool that prints the processes of a Linux system that use the
most memory, with the logic in a library verified by Verus.

- `src/text.rs`: lines and words of `/proc` status texts, in the sense of
  `str::lines` and `str::split_whitespace`, and the labelled lines `Name:`.
- `src/number.rs`: decimal numbers, read as `str::parse::<usize>` reads them
  and written without leading zeros.
- `src/ranking.rs`: gathering processes by name and ranking them by memory,
  largest first.
- `src/top_rss.rs`: the report by resident set size (`VmRSS` of `status`).
- `src/top_pss.rs`: the report by proportional set size (`Pss` of
  `smaps_rollup`).
- `src/cli.rs`: the command line and its error messages.
- `app/`: `main`, reading `/proc`, printing, and the gigabyte figures, which
  are computed in `f32` and handed to the library as text.
