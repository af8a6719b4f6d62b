# hls_vod

HLS playlists and segments of media files, made when they are asked for, and a proxy that puts
them between a client and a media server.

- `src/` is the library. Everything in it is verified with Verus: stream URLs, playlists, the
  choice, timing and order of packets, the boxes of fragmented MP4, subtitles, the planning of
  audio transcoding, the cache of segments, the open files, and the rules of the proxy.
  Contracts speak of sequences, maps and integers; times are integers, in ticks of a time base
  or in microseconds.
- `src/*_laws.rs`, `src/playlist/*_laws.rs` and `src/segment/*_laws.rs` hold properties that
  span several functions, such as that a URL that was written reads back as what it was made of.
- What the library calls from other crates stands behind small functions whose contracts are
  taken on trust. Their doc comments say what is claimed.
- `app/` is the program: command line, configuration files, HTTP, and FFmpeg.
- `tests/` holds the tests of the library.

Demuxing, decoding, encoding and muxing is FFmpeg's work (`app/media/`). The library decides
what is read, what is kept, where it goes and how it is stamped.
