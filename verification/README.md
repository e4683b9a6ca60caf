# Jamoa

Files that were named on macOS often reach Windows with Korean names in decomposed form (NFD), each
syllable broken up into its letters. Jamoa sits in the tray, watches folders, and renames such files
to the composed form (NFC).

The library under `src/` decides everything: which files to rename and to what, what to do when the
new name is taken or leads to the same file, when to try again and when to give up, and what a change
of the settings entails. It is written in Verus, and its contracts and laws are proved. The
application under `app/` is the rest: the file system, the watcher, the tray and the windows. It asks
the library what to do, does it, and reports back.

What is taken on trust is marked `external_body`: the normalization itself (`unicode-normalization`),
splitting a text into path components, and reading the clock.
