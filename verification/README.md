# pickles

Verified building blocks of the Pickles recursion over the Pasta curves: the
statements that are threaded through it, the arithmetic of the step and wrap
verifiers, the finalization of deferred values, the base-case pipeline, the
caches of reference strings, and what host bindings do around the prover.

`src/` is the library. Its functions are verified with Verus against their
contracts, over residues, sequences of field elements and points of the curves.
The exception is the module `arkworks`: Verus does not read the bodies of its
wrappers, and believes what their contracts say of arkworks and base64.

| modules | what they hold |
| --- | --- |
| `montgomery`, `lazy29`, `field`, `ring` | Montgomery products in two limb sizes, the two prime fields and their laws |
| `curve`, `domain`, `fft`, `endo` | the curves, radix-2 domains, the transform, the endomorphism |
| `composition_types` | the statement types and their field elements |
| `sponge`, `challenge`, `fr_sponge`, `hash_messages` | transcripts, challenges and message digests, for any sponge |
| `gates`, `expr_eval`, `ft_eval_circuit`, `all_evals` | linearization tokens and the evaluations they refer to |
| `ipa`, `bulletproof`, `commitments`, `finalize`, `incrementally_verify` | the verifier, part by part |
| `wrap_circuit`, `api`, `dummy` | the wrap circuit, the base case, the dummies of absent proofs |
| `codec`, `common`, `live_trace`, `capacity` | cache payloads, reference strings, checkpoints, the size of a circuit |
| `host`, `snarky_constraint_system`, `bench` | the bindings' logic and their measurements |
| `arkworks` | the calls into arkworks and base64, with what is relied on of each |

What the proof system itself does (the sponge's permutation, the prover, the
binary codecs) comes in as a function or as a value.

`tests/` runs the library on concrete values. `app/` is the host side: JSON, the
disk, the process-wide state, clocks and the thread pool.
