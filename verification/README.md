# citationberg (CSL-JSON data model)

The CSL-JSON data model — items, values, names, dates and citations — with
its logic verified by Verus.

- `src/text.rs`: decimal numerals (formatting `i64`/`u64`, reading `i16`/`u8`
  as `str::parse` does) and character search, with their specifications.
- `src/scan.rs`: a byte cursor over a date string; moves are made by
  `unscanny::Scanner`, behind three trusted wrappers.
- `src/date.rs`: the date grammar `YEAR[-MONTH[-DAY]][/...]`, the conversions
  between fixed dates and dates given by integer parts, date-part decoding,
  and the laws about them.
- `src/item.rs`: items, values, names and citations.
- `app/lib.rs`: the `serde` side — copies of the types with the derives, and
  the `Deserialize`/`Serialize` impls, which call the library.
