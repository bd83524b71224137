# grib2sail

Downloads GRIB2 weather files for sailing (Météo-France Arome and Arpege, NOAA GFS, ECMWF
IFS) and, for ECMWF's worldwide files, unpacks and crops them to the requested area.

- `src/` is the library, verified with Verus: the URLs of each provider, the byte ranges
  read from ECMWF index files, the splitting of downloads by range and the reassembly of
  their answers, the GRIB2 section walk that crops ECMWF messages, the Iridium-Go requests
  and answers, and the decisions taken while downloading. Coordinates are held in
  millionths of a degree.
- `app/` is the `grib2sail-cli` program around it: the command line, the logger and
  progress bar, the keyring, self-update, and every network exchange.
- `tests/` runs the library on concrete values.
