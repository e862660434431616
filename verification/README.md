# localwebs

A portal that lists the HTTP services listening on the local machine.

- `src/` is the verified library: the reading of the `lsof` listing
  (`lsof`), the combination of listed and fallback ports (`scanner`), the
  naming of a service from its configuration, its HTTP answer, its process or
  its port (`detector`), the cache of services and the bookkeeping of
  incremental scans (`cache`), the settings and their defaults (`config`),
  the records (`models`, `web`), and character-level helpers (`text`,
  `number`).
- `app/` is the program around it: command line, settings file, running
  `lsof` and `ps`, TCP connections, HTTP requests and the web server.
