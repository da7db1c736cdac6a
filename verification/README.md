# manga_scraper

A scraper for manga titles: it either scrapes a title's chapters from the
reader site (optionally capturing each page image, resumable from a
progress record) or downloads a title's stored chapters.

The library in `src/` holds the logic, verified with Verus:

- `text`: splitting, joining, searching and replacing text, over
  character sequences.
- `decimal`: writing integers in decimal and reading counts back.
- `args`: the command model and the kinds of titles.
- `json`: the JSON text of scraped values and chapters.
- `checkpoint`: reading and writing the progress record.
- `capture`: where a capture starts, what it records and when it stops.
- `layout`: the site's URLs and the dataset's paths and storage keys.
- `listing`: the listing written after a capture.

`app/` is the program around it: the command line, the browser, storage
and file work.
