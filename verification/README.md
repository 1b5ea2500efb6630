# querty

The crawler and query logic of a small search engine, written in Verus.

`src/` is the verified library:

- `text`: substring search, trimming, whitespace splitting, decimal numbers.
- `urlenc`: percent-encoding (through `urlencoding`).
- `query`: escaping a user's query and building the search and sort clauses.
- `classify`: keyword classification of pages into genres.
- `html`: reading elements out of a page (through `scraper`).
- `domain`: parsing addresses (`url`) and registrable domains (`publicsuffix`).
- `crawler`: a page's title, text, metadata and external links; reshaping
  records before they are stored; the genre classifier's answer.
- `sitemap`: the traversal of sitemaps, one fetch at a time.
- `react`: how users' up- and downvotes change a page's rank.
- `settings`, `solr`, `model`: settings, request URLs and the stored records.

`app/` is the program around it: the MySQL database (diesel), the HTTP
requests to Solr and to the pages (reqwest), the genre classifier (XML-RPC),
the web API (rocket) and the crawl loop.
