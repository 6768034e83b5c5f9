# gitkat

GitKat rewrites Git history in bulk: author and committer identities, text
inside blobs, file paths, and deleted paths, across every commit and tag. It
also exports and imports a repository's objects as a plain stream and
compares its rewrites with those of git-filter-repo and the BFG.

- `src/` is the library, verified with Verus: mapping rules, case-preserving
  replacement, commit and tag object encoding, the decisions taken for each
  tree entry, the stream format and its reader, the import plan, the object
  walk, the walk over GitHub's result pages for the email lookup, and the
  planning helpers of the command-line tool. Each public function states
  what it returns in its contract; the laws that relate several functions
  are public proof functions (`lemma_*`).
- `app/` is the `gk` command-line tool around the library: argument
  parsing, git processes, repository access through gitoxide, the GitHub
  API, and printing.
- `tests/` exercises the library on concrete values.
