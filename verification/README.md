# aw_notify

Decision logic of an ActivityWatch notification service, verified with Verus.

- `src/` is the library. Durations are whole milliseconds, instants milliseconds since
  the Unix epoch (the hourly wait is in nanoseconds).
  - `table`: `CategoryTimes`, a table from category names to durations.
  - `category`, `category_laws`: the category hierarchy ("Work > Programming > Rust") and
    its aggregation by top level and by all levels, with what the aggregations add up to.
  - `summary`: the top categories of a table, their icons, and check-in messages.
  - `query`: the time per category out of the events a server query returns.
  - `alert`: threshold alerts on the time spent in a category.
  - `monitor`: notifications, the server monitor, AFK status, new-day greetings, cache
    freshness.
  - `config`: configuration defaults, alerts from configuration, the configuration path.
  - `client`: requests and errors of the notification HTTP API.
  - `agent`: the HTTP agent together with the timeouts it was built with.
  - `hourly`: the hourly check-in: the next whole hour, how long to sleep, and whether to
    send.
  - `output`: notifications as JSON lines.
  - `logs`: log rotation rules and the log directory's layout per platform.
  - `text`: decimal numbers, joining, and durations as "1d 2h 5m".
- `app/` is the program around it: command line, files, server queries, threads, HTTP and
  desktop notifications.
- `tests/` runs the library on concrete values.
