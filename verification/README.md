# hat

A small terminal chat: a server that passes messages on, and a client that
draws them. The logic of both is verified with Verus; the program around it
does the input and output.

## Layout

- `src/` is the library. Every function states what it returns or changes, and
  the proof functions whose names start with `law_` state what holds of the
  chat as a whole: who hears a message, who is banned and for how long, which
  nicknames are free, how lines get through a stream of bytes.
- `app/` is the program: sockets, threads, files, processes and the terminal.
- `tests/` runs the library on concrete values.

## Running

`hat server` prints an access token when it starts. In another terminal start
`hat client` and type

    /connect 127.0.0.1 6969 <token>

What does not start with a slash is sent to the others. `/help` lists the
commands.

The server looks for `config.toml` in its directory to find a language model:

    [llm]
    api_key = "your-api-key"
    model = "the-model"
    api_url = "https://example.org/v1/chat/completions"

Without it, `/llm` is answered with an error.

## What is not proved

The library calls `getrandom`, `serde_json` and `reqwest`'s status codes, and a
few functions of std, through items that are marked as trusted. What each of
them is taken to do stands in the comment above it.
