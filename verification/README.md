# dxpdf

Page layout for word-processor documents, with contracts proved by Verus.

The library takes a document whose text has been measured and says where each text, image and line
stands on which page. It reads and paints nothing itself.

- `dimension`, `geometry`, `draw_command`: lengths in fixed point, shapes, and what is drawn.
- `fragment`, `style`, `paragraph`: measured pieces of text, paragraph formatting, and lines.
- `block`, `page`, `float`: the blocks of a section, its pages, and regions that text keeps clear of.
- `table`: columns, borders, row heights, drawing, and tables that are divided between pages.
- `section`: paragraphs and tables one after another, in columns and on pages, with footnotes and
  floating objects.
- `document`: sections one after another, with headers, footers and endnotes. Headers and footers are
  measured for each page, with its number and the number of pages.
- `vml`: vector drawings with coordinates of their own.
- `ink`: what pages show, wherever it stands; the laws that nothing is lost or shown twice are stated
  over it.

`app/` runs the layout between a backend that reads and measures and one that paints. The backend
measures the headers and footers of a page when the layout asks for them.
