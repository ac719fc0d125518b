# oukaro

Keeps chosen user apps of an Android device as system apps: at boot the
service mounts overlays over `/system/app` and `/system/priv-app` and stages
the configured apps' directories in them; the manager's command line edits
which apps are kept, and in which group.

- `src/` is the verified library: decoding of Android binary XML (ABX) and
  text XML, the readers of `packages.xml` and `package-restrictions.xml`,
  package-name validation, the configuration rules of the manager, and the
  decisions of the boot-time service (install checks, data paths, overlay
  mounts, cleanup).
- `app/` is the program around it: command-line parsing, files, `pm`,
  mounting and logging. The binary runs the manager when invoked as
  `okrmng` and the boot-time service otherwise; the service reads its
  directories and configuration path from `OUKARO_LOWER_PATH`,
  `OUKARO_UPPER_PATH`, `OUKARO_WORK_PATH` and `OUKARO_CONFIG_PATH`.
