# havi

Verified core logic of the HAVI browser components, written in Verus.

`src/` is the library; every function in it is verified against its
contract, and the laws of each part are public proof functions:

- JSONqa metadata (`qa_value`, `qa_grammar`, `qa_parse`, `qa_format`,
  `qa_laws`): the parser and formatter, specified by a grammar over
  character sequences; formatting then parsing gives back the metadata, and
  parsing yields keys that occur once at every depth.
- Media (`media_asset`, `media_mime`, `media_control`, `hppr_media`,
  `hppr_chunks`): byte-range clamping, resolved assets over byte sources,
  reads from in-memory and chunked sources and which chunks are fetched
  where, the `canPlayType` codec policy, and the playback state a media
  element keeps and the commands it sends.
- HPPR networking (`hppr_pool`, `hppr_coordinate`, `hppr_error`,
  `hppr_null_packet`, `hppr_watch_stream`): the connection pool's idle and
  QUIB base bookkeeping, stream coordinates, protocol errors, the errors
  that Null packets report, and the line-by-line reading of WATCH streams.
- Paint (`animation`, `touch`): which pipelines and webviews animate, and
  which touch moves drag the content.
- SVG layout (`svg_types`, `svg_reference`, `svg_resources`, `svg_style`,
  `svg_dependencies`, `svg_paint`): node kinds and summaries, local
  `#id`/`url(#id)` references, the resource graph with its reverse
  dependencies and the resources a subtree depends on, inline style lookup,
  and `fill`/`stroke` paint parsing and resolution.
- Text and fonts (`text_range`, `text_segments`, `font_fallback`,
  `web_fonts`, `chars`, `text`): byte ranges, the split of a text into runs
  of one font, script and bidi level, emoji presentation preference, usable
  web font sources and the order in which they are tried, and the
  character-level helpers the rest builds on.
- Layout (`scroll`, `scroll_container`, `geometry`, `au`, `block_margins`,
  `offset_parent`, `fragment_arena`, `canvas_background`, `text_hit`,
  `rendered_text`, `inner_text`): scroll sensitivity and scroll containers,
  pixel units and app-unit arithmetic, the collapsing of block margins,
  `offsetParent` and its offsets, the flattening of a fragment tree into an
  arena, which box paints the canvas background, the
  character under a point among text fragments, and the `innerText`
  algorithm: the rendered text collection steps over the properties of the
  DOM nodes, and the joining of their strings and required line breaks.
- Devtools (`devtools_watch`, `devtools_screenshot`): what the watch and
  screenshot actors ask the embedder and reply to the client.

`app/` holds what stays outside the verified library: process-wide media
channels and registries, the animation tick thread, resource key counters,
the media controller that sends the library's playback commands, and
`Display` for the JSONqa types.

`tests/` exercises the library through its public interface.
