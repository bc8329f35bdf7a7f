# catplay

Building blocks of a CarPlay stack, written in Verus and proved against their contracts:

- `ring`: the gap bitmap and the timeline ring buffer that carries audio samples between a
  producer and a consumer (overflow, underflow and gaps reported per read).
- `video`: Annex B / length-prefixed NAL scanning and conversion, `avcC` and `hvcC`
  configuration records, sample entries, NAL header types and emulation-prevention removal.
- `hid`: HID report layouts and descriptors.
- `bonjour`: mDNS record building with name compression, the CarPlay control-service
  announcement, announcement packets, queries, a DNS message parser, and the resolution of
  service instances from a batch of response records.
- `fairplay`: the SAP hash and the modified MD5 compression of the FairPlay handshake.
- `gadget`: the decisions of the USB and wireless head units and of the phone-side gadget
  (one step each: state and what the outside calls gave back, to next state and action),
  the phone session's answers to head-unit packets, the identification an accessory
  declares, and the now-playing summary.

`src/` is the verified library. `app/` holds what runs around it: the thread-shared ring
halves, wall-clock statistics, the clock reads behind timestamps, and the std-typed entry
points. `tests/` runs the library on concrete cases.
