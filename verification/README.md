# kairo_hub

The rules of KairoHub, the project manager and launcher of the Kairo Game Engine,
as a verified library.

Nothing in `src/` touches a disk or starts a program. What is known of the outside
comes in as plain values (`ProjectFacts`, `SnapshotFacts`, `ImportFacts`, ...);
what is to be written or run goes out as a plan (`NewProject`, `PlannedFile`,
`PlannedCommand`, ...). The contracts say exactly which plan or message follows
from which facts, down to the text of the message.

| Module | What it decides |
| --- | --- |
| `text`, `token`, `path`, `listing` | texts, the line tokenizer, paths and lists of paths |
| `descriptor` | what a `.kproject` file says |
| `layout` | that blank lines, comments, line ends and the order of statements in it do not matter |
| `generate`, `bootstrap` | the files of a new or repaired project |
| `health` | whether a project can be opened |
| `checksum`, `manifest`, `recovery` | recovery snapshots |
| `engine` | engine versions and where the tools are |
| `search`, `external`, `clone` | repositories: searching, importing a scene, cloning |
| `process`, `launch` | the calls of git, editor, compiler and player |
| `state` | recent projects, favorites and engines |

Laws that relate several functions are public proof functions whose names begin
with `law_`.

A path is text whose names are separated by `/`, read as `std::path` reads it on
Unix. What Windows adds is not modelled, and the programs refuse to start where paths
are separated otherwise. Names that are not Unicode reach the library with
replacement characters in them.

`app/` holds the programs around the library: what looks at the disk, starts
programs, stores the Hub's state and shows its window.
