# topk_explain

A verified library for two pieces of a query optimizer:

- `top_k`: fusion of chains of `TopK` operators that share their grouping and ordering
  keys into one `TopK`, on the plan model of `relation`, and the traversal that applies
  it to every node of a plan. The contracts state the result over the mathematical plan
  (`Plan`). The proof functions state that the fusion, of one node, of the whole tree, and
  of a traversal stopped at the recursion limit, keeps the value of the plan under any
  evaluation in which chained `TopK`s with the same keys compose as windows on a group's
  ordered rows do (which `lemma_group_top_k_composes` shows for those windows), that it
  keeps the arity, and that running it again changes nothing.
- `explain`: the text layout of `EXPLAIN` output: the compact rendering of lists of
  scalar expressions (runs of three or more consecutive column references become
  intervals), the rendering of map/filter/project operators, and the layout of single
  plans and of dataflows with several plans.

`scalar` holds the scalar expressions and their text, `text` indentation and blocks of
lines. `app/` holds the JSON form of explanations, on serializable copies of the types.
