# http_server

The library behind a small image relay server ("talking drums"): an image is
sent out and taken back in one byte at a time, in a compact encoding.

- `color_table`: colors and the palette (`ColorTable`) that maps colors to
  small indices, with its header form of three bytes per color.
- `helper`: HTTP response headers, the image encoding (`convert_to_bytes`:
  palette header followed by two 4-bit palette indices per byte, read column
  by column) and its decoding (`image_placements`).
- `request`: which route a request asks for, the state change and reply of
  each route (`respond`, `reply_header`), and the pixel value that a send
  request carries.
- `state`: the relay state, which takes bytes in and gives bytes out over the
  first 48 bytes of the encoded image.
- `laundry_view`: free washer and dryer slots of a laundry room.

`app/` is the server itself: threads, sockets, files, image files, the
clock, JSON and the laundry room's web service.
