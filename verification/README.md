# nota

A terminal reader for the notes of [Acta](https://github.com/inamuu/Acta), worked with the
keyboard alone. What it decides is written and proved in Verus; what it does outside is a
thin layer around that.

## Layout

`src/` is the library.

| Module | What it holds |
| --- | --- |
| `model` | daily notes, their entries and tasks, projects, and every edit of them |
| `store` | where files lie, how they are ordered, and what is changed in project files |
| `app` | the state of the screen, what each message does to it, and what is asked of the outside |
| `keys` | which message a key stands for |
| `screen` | what each pane shows |
| `config`, `editor`, `clipboard` | which data directory, editor command and clipboard command to use |
| `calendar`, `text`, `number`, `json`, `sort` | what the others are built on |

`app/` is the program: arguments, files, the terminal, the editor and the clipboard.
`tests/` runs the library, with the state machine driven against files held in memory.

## How the state works with the outside

`App::update` and `App::apply_edit` never touch a file. They return a `Job` where something is
to be saved, read or copied. The program does it and hands the outcome to `App::resume`, which
may ask for another job. The next message is taken once no job is left.

## What is proved

Every function states what it returns or changes. Beyond that, functions named `law_...` state
what holds over several calls, among them:

- a note is written as it was read, and setting the state of a task touches one character;
- an entry that is added, edited or deleted leaves all other entries as they were;
- putting the tasks of a project into a day's list twice is the same as doing it once;
- where a note cannot be saved, notes and projects are as they were;
- changing a project file leaves alone what is not understood of it.

What is taken on trust are the calls into `chrono`, `serde_json`, `uuid`, `dirs` and a few
functions of the standard library. Each has a doc comment that says what is claimed of it.
