# protogen

A voice-and-text controllable assistant for Linux whose decisions are verified
with [Verus](https://github.com/verus-lang/verus). It opens and focuses
applications, toggles common settings, and for anything it does not know yet it
searches the web, asks a local model for a plan, shows exactly what would run,
and runs it only once the user has approved it.

The model never gets to run shell text. A plan is a list of steps from a closed
vocabulary (`src/plan.rs`), every step becomes a program with an explicit
argument vector (`src/cmdrunner.rs`), and the proofs say so:

- nothing but the launch of an application and utility actions runs without
  approval, whatever a request, the memory bank or the model says
  (`server::law_runs_are_harmless_or_approved`);
- the plan that is approved is the plan that was shown
  (`server::law_shown_plan_is_what_is_approved`);
- only programs of a fixed list are ever started, and no shell is among them
  (`cmdrunner::law_programs_are_fixed`);
- what was approved once is found again without research
  (`server::law_approved_requests_need_no_research`), until it is forgotten
  (`memory::law_forgotten_phrase_is_gone`).

## Layout

`src/` is the library. It decides; it reads no file, opens no socket and starts
no process. Functions that span such work take what came of it as an argument
and return what to do next.

| module | what it is about |
| --- | --- |
| `plan` | the vocabulary of steps, their descriptions and their validation |
| `command`, `cmdrunner` | the command of each step, and the run of a plan |
| `desktop_index`, `desktop_file`, `paths` | the index of applications and the resolution of names |
| `focus_or_launch` | focusing, launching and closing windows |
| `memory` | plans that were approved, under the phrases that asked for them |
| `jan_client`, `json`, `fields` | the prompt for the model, and the reading of its answers |
| `research` | search results as context for the prompt |
| `personality` | what the assistant is called and how it sounds |
| `dispatcher`, `server`, `ipc` | requests, approvals, and the daemon's reactions |
| `backend`, `voice` | the processes behind the daemon |
| `ui` | what the frontend sends and shows |
| `text`, `fresh` | texts as sequences of characters; the time and new ids |

`app/` is the program around it: the daemon (`protogen`) and the window
(`protogen ui`). `tests/` runs the library.
