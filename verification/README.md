# PocketCam

The browser of a phone as a webcam. The phone opens a page that this computer
serves over HTTPS, pairs with a token, and sends its camera over WebRTC. Its
H.264 is shown in a window, handed to a virtual camera, and recorded to MP4
without a second encode.

`src/` is the library: every decision and every computation, stated in contracts
and proved with Verus. `app/` is the program around it: the window, the server,
the decoder and the camera of the operating system.

## The library

| Module | What it holds |
| --- | --- |
| `depay`, `sps` | access units out of RTP packets, and what a stream declares of its size |
| `session` | the queue in front of the decoder, when to decode, when to ask for a keyframe |
| `decode` | cropping, scaling and colours of decoded frames, and how the decoder is driven |
| `record`, `mp4` | recordings: samples, tables, files, names |
| `nv12`, `single` | pictures fitted into the canvas of the virtual camera |
| `float` | numbers of single precision |
| `ipc`, `vcam` | the ring of frames that the virtual camera reads |
| `pairing`, `server`, `qr`, `cert` | tokens, messages, the code on show, the certificate |
| `preview`, `ui`, `panel`, `overlay`, `figures` | what the window shows, and when the preview gives way |
| `host`, `icon` | the icon in the notification area |
| `sys`, `health` | the load of this computer, and its firewall |
| `settings`, `shared` | what the user has set, and the state that all parts share |
| `text`, `bytes` | texts and bytes |

Times are nanoseconds. Rates, percentages and sizes that are measured are
single-precision numbers: `float` computes them in integers and rounds each result
as the machine does.

## What is trusted

Five functions are believed without proof, each with a doc comment that says what it
claims: `String::push` (`text`), random numbers from `rand` (`pairing`), codes from
`qrcode` (`qr`, with two facts about their size), and names and signing from `rcgen`
(`cert`).
The error types of `qrcode` and `rcgen` are opaque.

## The program

`app/` needs `web/` (the page) and `images/pocketcam.svg` (the mark) beside the
executable. Away from Windows it serves phones and shows nothing.
