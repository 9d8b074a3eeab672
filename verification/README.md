# gotw

A Twitch chat bot whose message handling is specified and proved with Verus.

- `src/` is the verified library.
  - `gotw/` is the bot as it runs: `bot` reads chat lines into messages and
    picks the reply to say, `command/` holds the command and trigger tables
    (`command_map`) and the commands themselves with the `!commands add`
    switches (`commands`), `format` renders `${..}` reply templates, `user`
    reads IRC tags, and `irc` builds the lines sent to the server.
  - `bot` and `irc` at the top are the first version of the parser and of
    the IRC line format; `gotw/commands` is the first version of commands.
  - `text` holds the character-level operations (split, join, search,
    decimal numbers) with their specifications; `assoc` keeps string-keyed
    tables as lists of pairs.
- `app/` is the program: environment, logging, and the websocket and TCP
  connections, which hand chat lines to the library and send its replies.
- `tests/` runs the library on concrete chat lines and commands.
