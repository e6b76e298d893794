# ell_http

A hook library for WinHttp: injected into a program, it redirects the
program's calls of WinHttp functions to hooks that record every call in a
database, or replay the calls recorded earlier.

`src/` is the verified library, proved with Verus:

- `patch`: finding and rewriting `call rel32` instructions in the loaded image;
- `utf16`: UTF-16 decoding and encoding of wide strings;
- `radix64`: standard base64 text, the form in which binary buffers are kept;
- `values`: the column values of recorded arguments, and the bytes that
  replay writes back into buffers;
- `replay`: the values and state that replay gives back to the program, and
  the round trips of record and replay;
- `text`: decimal and debug forms of values in the log;
- `record`: the log item of a call, and the statements and log line made of it;
- `schema`: the table of each hooked function and its statements;
- `status`: the status callback table and its notifications;
- `inject`: writing edited data back into a caller's buffer.

`app/` holds the DLL itself: the entry point, the Windows and database calls,
the logger thread and the hook definitions, which call into the library.
