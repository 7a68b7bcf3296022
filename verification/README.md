# phonecam

PhoneCam turns a phone into a desktop webcam: the phone streams H.264 or HEVC
video over a framed TCP protocol, and the desktop decodes it into a virtual
camera. This crate is the verified core of both sides.

- `src/` is the library, verified with Verus: the wire protocol (profiles,
  handshakes, message type bytes, framing), the streaming session's
  negotiation state machine, the decoder gate and HEVC parameter-set checks,
  NV12 and YUYV layouts, the native-output format events, the phone's session
  and its JSON commands, QR code URIs and socket-address text, mDNS names,
  `adb` output parsing, device selection and the device monitor's diff, the
  search order for the `adb` binary, and the virtual-camera format checks.
- `tests/` runs the library on concrete values.
- `app/` holds what cannot be verified: tokio sockets and tasks, the mDNS
  daemon, `adb` processes, the openh264/rust_h265 decoder thread, the serde
  copies of the protocol types with their bincode payloads, the mobile C entry
  points and the Linux v4l2loopback output.
