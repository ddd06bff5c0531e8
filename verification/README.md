# gywadmin-pki

`pki` manages an offline public-key infrastructure with the OpenSSL command-line tool:
it checks OpenSSL, creates root and intermediate CAs and leaf certificates (as dry runs
unless `--do-it` is given), and lists the certificates below a PKI directory.

The library under `src/` holds the decisions and texts of the tool, verified with Verus:

- `create`: creating a root CA, an intermediate CA or a certificate, as a decision that
  asks for facts about the PKI directory (`ops::Need`) until it can fail or hand back a
  plan: the report and the actions (`ops::Action`) to carry out.
- `dispatch`: the preflight of each command-line operation.
- `plans`, `layout`, `rules`, `subject`, `model`, `secret`: OpenSSL arguments, the
  directory layout, option checks, subjects, lifetimes and passphrases (a generated one,
  a file, a value, a prompt, or none with `--passphrase NONE`).
- `certificate`, `tree`, `report`: reading certificates through `x509-parser`, the
  issuer hierarchy and the list report.
- `display`: the human-readable output; `redact`: what reports show of the OpenSSL runs
  (passphrase sources, key and passphrase paths redacted, no raw output).
- `laws`: properties that hold across operations (dry runs change nothing, targets and
  names in use are never taken over, a child CA stays within its parent, serial numbers
  are never handed out twice, passphrase values never shape a plan, sensitive contents
  are never shown, and every planned file is hidden exactly when its name marks a key or
  a passphrase); `tree_order`: the rendered hierarchy does not depend on the order in
  which the records were found.

`app/` is the program around it: argument parsing, the file system, running OpenSSL,
and printing.
