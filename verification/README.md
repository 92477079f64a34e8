# dozer

Three pieces of a data pipeline, written in Verus.

- Pipelines: a directed acyclic graph of sources, processors and sinks. It is checked that the
  nodes are connected as their ports ask for (`connectivity`), and the schemas of output ports are
  passed on to the input ports downstream (`populate`, `dag_schemas`). `laws` states what holds of
  pipelines as a whole.
- Secondary indexes of a cache: which definition an index is opened under
  (`secondary_environment`), and how a run brings it up to date with the operation log
  (`index_run`).
- A MongoDB connector: the schema of a collection from one of its documents (`schema_inference`),
  and the messages that the events of a change stream stand for (`connector`).

`graph` keeps its nodes and edges in `daggy::Dag`; `reach` says what paths and topological orders
are. Everything in `src/` is verified against its contracts, apart from the small functions that
call `daggy`, `bson` and the standard library's sort, whose doc comments say what is taken on
trust. `app/` is ordinary Rust around it: building pipelines that panic where they are not connected, running an index on a storage engine,
and talking to MongoDB.
