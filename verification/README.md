# erasure

Host side of a protocol that wipes the memory of a device and has the device prove it.

The host fills the device's memory with ciphertext and then asks it to recover the encryption key
from a block that depends on every byte that was written. A device that still holds all of the data
can do so. What stays in memory, the program that speaks the protocol on the device, is covered by
the same check without being overwritten.

## Protocol

1. The host sends the number of bytes between acknowledgements and the size of the device's
   program, four bytes each, least significant first.
2. The device answers with an error code and, if that is zero, the number of bytes it wants.
3. Until that many bytes are sent: the host sends 1024 bytes, or what remains if that is less, and
   the device answers with the number of bytes received so far.
4. The host sends the seed and the masked key.
5. The device answers with the key.

## Layout

- `src/` is the verified library.
  - `shiftxor`: the accumulator that masks the key, and why only the right data gives it back.
  - `cipher`: AES-128 in counter mode.
  - `writer`, `transfer`, `recovery`: the three stages of the protocol.
  - `serial`, `text`, `progress`: words, messages, numbers and the progress bar.
  - `elf_file`, `binary`, `listing`: what is read from the device's ELF file.
- `app/` is the command-line program around it.
- `tests/` runs the library, with a simulated device.
