# calaos_core

The core of an experimental Calaos home automation server, written in Verus.

- `src/` is the library, verified by Verus: the Wago UDP protocol, IO values
  and their text form, the configuration model, the state of inputs and
  outputs, the rules engine, the websocket session and its JSON messages as
  values, MQTT topics, commands and discovery, the Modbus output controller,
  the grouping of IOs by controller, time inputs, and the choice of the TLS
  certificate chain and private key among PEM files.
- `app/` is the server program around it: command line, XML and JSON
  (de)serialisation, sockets, Modbus, MQTT, TLS and the tasks that carry out
  what the library decides.
- `tests/` exercises the library on concrete values.
