# code2graph

Indexing and querying of a project's code graph, with the logic proved in Verus.

The library under `src/` holds what decides: which files belong to a project, which of them
are read again, what a cached snapshot is and when it may be used, how a graph is queried,
and what is told about it. Each function states what it returns and when it fails; the laws
that span several functions stand beside them as public proof functions.

| Module | What it holds |
| --- | --- |
| `project` | project paths, also as other platforms read them, marker files, the selection of a project root |
| `inventory` | discovery of sources, bounded reading, resource budgets |
| `package_assignment` | packages of sources and their canonical records |
| `refresh` | the plan of a refresh, extraction with crash recovery, assembly of a candidate |
| `cache` | identities, blobs, rows, publication and loading, schema and location |
| `query` | the graph index, its pages and bounded reverse reachability |
| `commands` | the query commands |
| `execution` | the lifecycle of a command, its policy towards the cache, what it prints |

Reading and writing is left to the program under `app/`: it walks directories, reads files,
runs SQLite statements and `git`, and hands the library what it found.
