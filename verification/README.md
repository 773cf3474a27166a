# xfdl_analyzer

A verified library for analyzing XFDL screens: the `actionSubmit` calls and
`getComCodeCombo` family calls in their scripts, the `dsAction` dataset that
maps action ids to service URLs, the location of the Java handler of a URL
(through `default_typedef.xml` or a Spring `@RequestMapping` index), the
calls followed from that handler through the compiled `.class` files down to
the DAO query ids, and the rows of the exported sheet.

Layout:

- `src/` — the library, written and proved with Verus:
  - `text.rs`, `order.rs`, `strmap.rs`: text, sorting and map helpers;
  - `regex_search.rs`, `xml.rs`: searches through `regex`, events through `quick-xml`;
  - `parser/`: the typedef map, the screen scripts, the URL rules, the Spring
    index and the class file analysis (`cafebabe`);
  - `commands/`: the decisions of the analysis of a row, and the sheet layout.
- `tests/` — tests of the library.
- `app/` — the file system, the Excel writer and the command entry points
  around the library.
