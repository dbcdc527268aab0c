# vcard-viewer

A command-line tool that parses and displays vCards (2.1, 3.0 and 4.0), built on
a library whose behaviour is stated in contracts and proved with Verus.

- `src/` is the library. `parse` turns the text of a file into cards, `decode`
  and `format` turn values into text, `show`, `table` and `csv` lay cards out,
  `style` puts lines on the terminal, and `cli` holds what the program decides.
  `outside` and `style` hold the contracts that are taken on trust: those of a
  few functions of the standard library and of the crate `colored`.
- `src/laws/` states what holds of these operations together: what is written
  reads back, folds and groups make no difference, tables are aligned.
- `app/` is the program: it reads files and prints lines.

```
vcard-viewer [--csv] <file.vcf | directory>
```
