# openlive

The verified core of OpenLive, a runtime for continuous voice agents.

`src/` is a Verus library: every function there carries a contract and is
proved. It holds the binary media packet codec and WAV framing, the realtime
protocol types and the gateway's event rules, the task orchestrator with its
evidence ledger and resume buffer, session timelines and playout tracking,
the streaming speech segmenter and PCM framer, the pending-confirmation
store, research-pool planning and job status, the rolling session context,
the knowledge-note chunker and ranking, LLM settings and prompt planning,
the provider catalog and manifests, and the sandbox and headless-browser
path rules, the offline voice's phones and preview plan, the session
transcript, the agent's run checks, turn routing and tool-call planning, the
hybrid provider's routing, and the MCP client's state. Proof functions named
`lemma_*` state the library's laws (round trips, idempotence, chunking
independence, what a store reports after an update).

`tests/` exercises the library as a user would.

`app/` is the gateway program around it: command line, HTTP routes, file
system, processes, network calls to model endpoints, and the floating-point
acoustic analysis, knowledge scoring and formant voice synthesis.
