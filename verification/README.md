# qemu-ipmi-relay

Transparent relay between QEMU's virtual VM-IPMI/KCS interface and the Linux
OpenIPMI system interface. The relay understands only framing and the Linux
ioctl ABI; it does not inspect or filter IPMI command semantics.

```text
guest ipmitool -> guest /dev/ipmi0 -> QEMU isa-ipmi-kcs
  -> QEMU VM-IPMI framing -> Unix socket -> qemu-ipmi-relay
  -> Linux OpenIPMI ioctl -> host /dev/ipmi0 -> physical BMC
```

## Layout

`src/` is a library whose functions carry contracts that Verus proves:

- `vm_codec`: frames, escaping, checksum; the decoder and the encoders.
- `codec_laws`: what holds of the framing as a whole, such as that every frame
  is read back as it was written, however the stream is cut into pieces.
- `relay`: what becomes of the bytes of one connection.
- `openipmi`: which requests are sent to the driver, how long an answer is
  awaited and which answer is taken.
- `config`, `startup`, `error`: the settings, the decisions before the first
  connection, and the errors.

The library makes no system calls. It takes `Duration::from_millis` and
`Duration::as_nanos` of the standard library at their documentation's word.

`app/` is the program around it: files, sockets, threads, the `ioctl` and `poll`
system calls, logging and the parsing of the configuration file.

## Configuration

```toml
socket = "/run/qemu-ipmi-relay/ipmi.sock"
device = "/dev/ipmi0"
request_timeout_ms = 3000
max_frame_size = 303
device_wait_timeout_ms = 0
```

These are the defaults. `device_wait_timeout_ms` says how long to wait at startup
until the device can be opened. A listening socket that systemd passes in is used
in place of `socket`. Set `RUST_LOG=debug` to log each forwarded request's
sequence, NetFn/LUN and command number. Payload bytes are not logged.
