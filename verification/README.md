# recipe_table

A Discord bot answers `/recipe <item>` with the crafting recipe of a
Minecraft item, drawn as a three-by-three text table inside a Markdown code
fence. A second mode rebuilds the recipe file from the Minecraft wiki.

The library under `src/` holds the logic, with contracts proved by Verus:

- `text`: strings as sequences of characters; splitting at white space or
  at a character, joining, byte lengths (UTF-8), repeating, replacing.
- `table`: the table itself: the longest word and the tallest ingredient,
  the layout of an ingredient's words over the lines of a row, the cells,
  lines, rows and separators, and the whole table.
- `table_laws`: proved properties of the table as a whole: every line has
  the same width, and the separators and rows come in a fixed order.
- `recipe`: the bot's reply to a request, looked up in the recipe book
  read (with serde_json) from the text of the recipe file.
- `scrape`: what the scraper takes from the wiki pages, read (with the
  scraper HTML parser) from their text.

`app/` holds the program: the Discord bot (poise, tokio), reading the
recipe file from disk, fetching the wiki pages (reqwest) and writing the
new recipe file.
