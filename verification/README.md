# Rusty Static Server

A multi-threaded HTTP/1.1 server for static files on Unix, with its logic verified by Verus.

- `src/` is the library: request lines, paths, responses, the course of a connection, the command
  line and the log, with contracts and proofs.
- `app/` is the program: it does what the library decides with files, sockets and threads.
- `tests/` runs the library.

## What is proved

- The path of every file that is opened begins with the components of the root directory as the
  file system resolved it; a request for anything else is answered with `403 Forbidden`.
- On a file system that does not change, whatever links it holds, every file that is served resolves
  to a path under the resolved root directory, the index of a directory included.
- Every request line is answered, once, and after twelve steps at most a connection is at its end.
- The head of a response ends at its first empty line, and an error is answered with exactly its head,
  which tells the length of the page in bytes, and the page.
- A `HEAD` request goes the way of the `GET` request and gets the same head and no body, whether the
  file is found or not.
- A file that is sent to its end was sent whole, byte for byte.
- Each setting is the value of the last occurrence of its option.

A requested path that the file system cannot resolve is held against the root directory by its
components alone, before an attempt to open it.

## Options

    -h, --host <host>       the address to listen at (127.0.0.1)
    -p, --port <port>       the port to listen at (8080)
    -r, --root <dir>        the directory whose files are served (the current one)
    -t, --threads <size>    the number of workers (the number of processors)
    -l, --log <file>        the file for the log (server.log)
        --timeout <secs>    the seconds that a client may take for its request line (10)
        --help              the help text

A file `404.html` or `403.html` in the root directory is shown for the error of that number.
