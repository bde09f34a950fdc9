# moquette

A small MQTT 3.1.1 broker. The library (`src/`) holds what the broker decides and
computes, each function with a contract proved by Verus:

- `packet`: decoding client packets from bytes (`decoder`, `reader`, `length`) and
  encoding server packets (`encoder`), with laws that the two agree (`laws`).
- `broker`: the subscription tree with `+` and `#` wildcards (`topic_tree`), the broker
  state that subscribes, unsubscribes, removes clients and computes who receives a
  message at which QoS (`state`), and the laws of matching and delivery (`laws`).
- `network`: cutting packets out of a byte stream (`codec`) and the decisions of a
  connection for each packet it receives (`server`).
- `snowflake`: the generator of 64-bit ids and `auto-` client ids.

`app/` is the program around it: configuration, TCP listener, one task per connection,
the channels that carry messages to subscribers, and logging.
